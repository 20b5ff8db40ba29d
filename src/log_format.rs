use vstd::prelude::*;
use vstd::std_specs::iter::IteratorSpec;

verus! {

/// One mutation as it is recorded in the append-only log.
pub enum LogOp {
    Put { key: Seq<char>, value: Seq<char> },
    Del { key: Seq<char> },
}

pub open spec fn newline() -> Seq<char> {
    seq!['\n']
}

pub open spec fn set_tag() -> Seq<char> {
    seq!['S', 'e', 't']
}

pub open spec fn del_tag() -> Seq<char> {
    seq!['D', 'e', 'l']
}

pub open spec fn has_newline(s: Seq<char>) -> bool {
    exists|i: int| 0 <= i < s.len() && s[i] == '\n'
}

pub open spec fn ends_with_cr(s: Seq<char>) -> bool {
    s.len() > 0 && s.last() == '\r'
}

/// A line as read back: a carriage return before its newline is dropped.
pub open spec fn strip_cr(s: Seq<char>) -> Seq<char> {
    if ends_with_cr(s) {
        s.drop_last()
    } else {
        s
    }
}

/// The text appended for a `Put` record (tag `Set`): `Set\n{key}\n{value}\n`.
pub open spec fn set_record(key: Seq<char>, value: Seq<char>) -> Seq<char> {
    set_tag() + newline() + key + newline() + value + newline()
}

/// The text appended for a `Del` record: `Del\n{key}\n`.
pub open spec fn del_record(key: Seq<char>) -> Seq<char> {
    del_tag() + newline() + key + newline()
}

pub open spec fn record_text(op: LogOp) -> Seq<char> {
    match op {
        LogOp::Put { key, value } => set_record(key, value),
        LogOp::Del { key } => del_record(key),
    }
}

/// The lines that one record occupies in the log.
pub open spec fn record_lines(op: LogOp) -> Seq<Seq<char>> {
    match op {
        LogOp::Put { key, value } => seq![set_tag(), key, value],
        LogOp::Del { key } => seq![del_tag(), key],
    }
}

/// A record that replay reads back as written: a non-empty key, no line
/// terminator inside the key or the value, and neither ends in a carriage
/// return.
pub open spec fn op_well_formed(op: LogOp) -> bool {
    match op {
        LogOp::Put { key, value } => key.len() > 0 && !has_newline(key) && !has_newline(value)
            && !ends_with_cr(key) && !ends_with_cr(value),
        LogOp::Del { key } => key.len() > 0 && !has_newline(key) && !ends_with_cr(key),
    }
}

pub open spec fn ops_well_formed(ops: Seq<LogOp>) -> bool {
    forall|i: int| 0 <= i < ops.len() ==> op_well_formed(#[trigger] ops[i])
}

/// The log text produced by appending the records of `ops` in order.
pub open spec fn log_text(ops: Seq<LogOp>) -> Seq<char>
    decreases ops.len(),
{
    if ops.len() == 0 {
        Seq::empty()
    } else {
        record_text(ops[0]) + log_text(ops.skip(1))
    }
}

pub open spec fn op_lines(ops: Seq<LogOp>) -> Seq<Seq<char>>
    decreases ops.len(),
{
    if ops.len() == 0 {
        Seq::empty()
    } else {
        record_lines(ops[0]) + op_lines(ops.skip(1))
    }
}

/// The effect of one operation on the key-value mapping.
pub open spec fn apply_op(m: Map<Seq<char>, Seq<char>>, op: LogOp) -> Map<Seq<char>, Seq<char>> {
    match op {
        LogOp::Put { key, value } => m.insert(key, value),
        LogOp::Del { key } => m.remove(key),
    }
}

/// Applies `ops` in order to `m`: a put overwrites, a delete removes.
pub open spec fn apply_ops(ops: Seq<LogOp>, m: Map<Seq<char>, Seq<char>>) -> Map<
    Seq<char>,
    Seq<char>,
>
    decreases ops.len(),
{
    if ops.len() == 0 {
        m
    } else {
        apply_ops(ops.skip(1), apply_op(m, ops[0]))
    }
}

/// Splits text into the lines ended so far and the unterminated tail.
pub open spec fn lines_acc(s: Seq<char>) -> (Seq<Seq<char>>, Seq<char>)
    decreases s.len(),
{
    if s.len() == 0 {
        (Seq::empty(), Seq::empty())
    } else {
        let (done, cur) = lines_acc(s.drop_last());
        if s.last() == '\n' {
            (done.push(cur), Seq::empty())
        } else {
            (done, cur.push(s.last()))
        }
    }
}

/// The lines of a text: each ends at a newline (or a carriage return and
/// a newline), and a non-empty unterminated tail is a last line, kept as it is.
pub open spec fn lines_of(s: Seq<char>) -> Seq<Seq<char>> {
    let (done, cur) = lines_acc(s);
    let lines = done.map_values(|l: Seq<char>| strip_cr(l));
    if cur.len() == 0 {
        lines
    } else {
        lines.push(cur)
    }
}

/// Replays log lines onto `m` group by group; `None` for a corrupt log:
/// an unknown tag, an empty key, or a record cut short by the end.
pub open spec fn replay_lines(ls: Seq<Seq<char>>, m: Map<Seq<char>, Seq<char>>) -> Option<
    Map<Seq<char>, Seq<char>>,
>
    decreases ls.len(),
{
    if ls.len() == 0 {
        Some(m)
    } else if ls[0] == set_tag() {
        if ls.len() < 3 || ls[1].len() == 0 {
            None
        } else {
            replay_lines(ls.skip(3), m.insert(ls[1], ls[2]))
        }
    } else if ls[0] == del_tag() {
        if ls.len() < 2 || ls[1].len() == 0 {
            None
        } else {
            replay_lines(ls.skip(2), m.remove(ls[1]))
        }
    } else {
        None
    }
}

/// The mapping that a log text replays to, or `None` if it is corrupt.
pub open spec fn replay_text(s: Seq<char>) -> Option<Map<Seq<char>, Seq<char>>> {
    replay_lines(lines_of(s), Map::empty())
}

pub open spec fn line_views(ls: Seq<String>) -> Seq<Seq<char>> {
    ls.map_values(|l: String| l@)
}

/// The characters of a text, in order.
fn chars_of(s: &str) -> (r: Vec<char>)
    ensures
        r@ == s@,
{
    broadcast use vstd::string::axiom_spec_iter, vstd::string::next_postcondition;

    let mut r: Vec<char> = Vec::new();
    let mut it = s.chars();
    loop
        invariant
            r@ + it.remaining() == s@,
            it.decrease() is Some,
        decreases it.decrease()->0,
    {
        let ghost before = it;
        match it.next() {
            Some(c) => {
                assert(r@.push(c) + it.remaining() =~= r@ + before.remaining());
                r.push(c);
            },
            None => {
                assert(r@ =~= s@);
                return r;
            },
        }
    }
}

/// Relies on String's FromIterator<&char>: the string made of these characters in order.
#[verifier::external_body]
fn string_of(cs: &[char]) -> (r: String)
    ensures
        r@ == cs@,
{
    cs.iter().collect()
}

/// Splits a log text into its lines.
pub fn split_lines(text: &str) -> (r: Vec<String>)
    ensures
        line_views(r@) == lines_of(text@),
{
    let cs = chars_of(text);
    let mut lines: Vec<String> = Vec::new();
    let mut start: usize = 0;
    let mut i: usize = 0;
    let ghost mut raw: Seq<Seq<char>> = Seq::empty();
    while i < cs.len()
        invariant
            cs@ == text@,
            start <= i <= cs.len(),
            lines_acc(cs@.take(i as int)) == (raw, cs@.subrange(start as int, i as int)),
            line_views(lines@) == raw.map_values(|l: Seq<char>| strip_cr(l)),
        decreases cs.len() - i,
    {
        assert(cs@.take(i + 1).drop_last() == cs@.take(i as int));
        if cs[i] == '\n' {
            let end: usize = if i > start && cs[i - 1] == '\r' {
                i - 1
            } else {
                i
            };
            let line = string_of(&cs.as_slice()[start..end]);
            let ghost cur = cs@.subrange(start as int, i as int);
            assert(line@ == strip_cr(cur)) by {
                if end < i {
                    assert(cs@.subrange(start as int, end as int) =~= cur.drop_last());
                }
            }
            let ghost before = lines@;
            let ghost raw0 = raw;
            lines.push(line);
            proof {
                raw = raw.push(cur);
            }
            start = i + 1;
            assert(line_views(lines@) =~= raw.map_values(|l: Seq<char>| strip_cr(l))) by {
                assert(lines@ == before.push(line));
                assert(line_views(lines@) =~= line_views(before).push(line@));
                assert(raw.map_values(|l: Seq<char>| strip_cr(l)) =~= raw0.map_values(
                    |l: Seq<char>| strip_cr(l),
                ).push(strip_cr(cur)));
            }
        } else {
            assert(cs@.subrange(start as int, i + 1) =~= cs@.subrange(start as int, i as int).push(
                cs@[i as int],
            ));
        }
        i = i + 1;
    }
    assert(cs@.take(i as int) =~= cs@);
    if start < cs.len() {
        let line = string_of(&cs.as_slice()[start..cs.len()]);
        let ghost before = lines@;
        lines.push(line);
        assert(line_views(lines@) =~= line_views(before).push(line@)) by {
            assert(lines@ == before.push(line));
        }
    }
    lines
}

proof fn lemma_lines_acc_concat(a: Seq<char>, b: Seq<char>)
    requires
        lines_acc(a).1.len() == 0,
    ensures
        lines_acc(a + b) == (lines_acc(a).0 + lines_acc(b).0, lines_acc(b).1),
    decreases b.len(),
{
    if b.len() == 0 {
        assert(a + b =~= a);
        assert(lines_acc(a).0 + lines_acc(b).0 =~= lines_acc(a).0);
        assert(lines_acc(a).1 =~= Seq::<char>::empty());
    } else {
        assert((a + b).drop_last() =~= a + b.drop_last());
        assert((a + b).last() == b.last());
        lemma_lines_acc_concat(a, b.drop_last());
        let (d, _) = lines_acc(a);
        let (db, cb) = lines_acc(b.drop_last());
        if b.last() == '\n' {
            assert((d + db).push(cb) =~= d + db.push(cb));
        }
    }
}

proof fn lemma_lines_acc_line(l: Seq<char>)
    requires
        !has_newline(l),
    ensures
        lines_acc(l) == (Seq::<Seq<char>>::empty(), l),
        lines_acc(l + newline()) == (seq![l], Seq::<char>::empty()),
    decreases l.len(),
{
    if l.len() > 0 {
        assert(!has_newline(l.drop_last())) by {
            if has_newline(l.drop_last()) {
                let i = choose|i: int| 0 <= i < l.drop_last().len() && l.drop_last()[i] == '\n';
                assert(l[i] == '\n');
            }
        }
        lemma_lines_acc_line(l.drop_last());
        assert(l.drop_last().push(l.last()) =~= l);
        assert(l[l.len() - 1] != '\n');
    }
    assert((l + newline()).drop_last() =~= l);
    assert(seq![l] =~= Seq::<Seq<char>>::empty().push(l));
}

proof fn lemma_lines_acc_record(op: LogOp)
    requires
        op_well_formed(op),
    ensures
        lines_acc(record_text(op)) == (record_lines(op), Seq::<char>::empty()),
{
    let e = Seq::<char>::empty();
    match op {
        LogOp::Put { key, value } => {
            assert(!has_newline(set_tag())) by {
                assert(set_tag()[0] != '\n' && set_tag()[1] != '\n' && set_tag()[2] != '\n');
            }
            lemma_lines_acc_line(set_tag());
            lemma_lines_acc_line(key);
            lemma_lines_acc_line(value);
            let a = set_tag() + newline();
            let b = key + newline();
            let c = value + newline();
            lemma_lines_acc_concat(a, b);
            lemma_lines_acc_concat(a + b, c);
            assert(set_record(key, value) =~= (a + b) + c);
            assert(seq![set_tag()] + seq![key] + seq![value] =~= seq![set_tag(), key, value]);
        },
        LogOp::Del { key } => {
            assert(!has_newline(del_tag())) by {
                assert(del_tag()[0] != '\n' && del_tag()[1] != '\n' && del_tag()[2] != '\n');
            }
            lemma_lines_acc_line(del_tag());
            lemma_lines_acc_line(key);
            let a = del_tag() + newline();
            let b = key + newline();
            lemma_lines_acc_concat(a, b);
            assert(del_record(key) =~= a + b);
            assert(seq![del_tag()] + seq![key] =~= seq![del_tag(), key]);
        },
    }
}

proof fn lemma_lines_acc_log(ops: Seq<LogOp>)
    requires
        ops_well_formed(ops),
    ensures
        lines_acc(log_text(ops)) == (op_lines(ops), Seq::<char>::empty()),
    decreases ops.len(),
{
    if ops.len() > 0 {
        assert(op_well_formed(ops[0]));
        assert(ops_well_formed(ops.skip(1))) by {
            assert forall|i: int| 0 <= i < ops.skip(1).len() implies op_well_formed(
                #[trigger] ops.skip(1)[i],
            ) by {
                assert(ops.skip(1)[i] == ops[i + 1]);
            }
        }
        lemma_lines_acc_log(ops.skip(1));
        lemma_lines_acc_record(ops[0]);
        lemma_lines_acc_concat(record_text(ops[0]), log_text(ops.skip(1)));
    }
}

proof fn lemma_replay_op_lines(ops: Seq<LogOp>, rest: Seq<Seq<char>>, m: Map<Seq<char>, Seq<char>>)
    requires
        ops_well_formed(ops),
    ensures
        replay_lines(op_lines(ops) + rest, m) == replay_lines(rest, apply_ops(ops, m)),
    decreases ops.len(),
{
    if ops.len() == 0 {
        assert(op_lines(ops) + rest =~= rest);
    } else {
        assert(op_well_formed(ops[0]));
        assert(ops_well_formed(ops.skip(1))) by {
            assert forall|i: int| 0 <= i < ops.skip(1).len() implies op_well_formed(
                #[trigger] ops.skip(1)[i],
            ) by {
                assert(ops.skip(1)[i] == ops[i + 1]);
            }
        }
        let tail = op_lines(ops.skip(1)) + rest;
        let ls = op_lines(ops) + rest;
        assert(ls =~= record_lines(ops[0]) + tail);
        lemma_replay_op_lines(ops.skip(1), rest, apply_op(m, ops[0]));
        match ops[0] {
            LogOp::Put { key, value } => {
                assert(ls[0] == set_tag());
                assert(ls.skip(3) =~= tail);
            },
            LogOp::Del { key } => {
                assert(ls[0] == del_tag());
                assert(set_tag()[0] != del_tag()[0]);
                assert(ls.skip(2) =~= tail);
            },
        }
    }
}

/// Extending a sequence of operations by one appends that operation's
/// record to the log text and applies it to the mapping, as `set_text` and
/// `del` do to a store.
pub proof fn lemma_ops_push(ops: Seq<LogOp>, op: LogOp, m: Map<Seq<char>, Seq<char>>)
    ensures
        log_text(ops.push(op)) == log_text(ops) + record_text(op),
        apply_ops(ops.push(op), m) == apply_op(apply_ops(ops, m), op),
    decreases ops.len(),
{
    assert(ops.push(op)[0] == if ops.len() == 0 {
        op
    } else {
        ops[0]
    });
    if ops.len() == 0 {
        assert(ops.push(op).skip(1) =~= Seq::<LogOp>::empty());
        assert(log_text(Seq::<LogOp>::empty()) == Seq::<char>::empty());
        assert(apply_ops(Seq::<LogOp>::empty(), apply_op(m, op)) == apply_op(m, op));
        assert(record_text(op) + Seq::<char>::empty() =~= record_text(op));
        assert(log_text(ops) + record_text(op) =~= record_text(op));
    } else {
        assert(ops.push(op).skip(1) =~= ops.skip(1).push(op));
        lemma_ops_push(ops.skip(1), op, apply_op(m, ops[0]));
        assert(log_text(ops.push(op)) =~= log_text(ops) + record_text(op));
    }
}

proof fn lemma_strip_op_lines(ops: Seq<LogOp>)
    requires
        ops_well_formed(ops),
    ensures
        op_lines(ops).map_values(|l: Seq<char>| strip_cr(l)) == op_lines(ops),
    decreases ops.len(),
{
    if ops.len() == 0 {
        assert(op_lines(ops).map_values(|l: Seq<char>| strip_cr(l)) =~= op_lines(ops));
    } else {
        assert(op_well_formed(ops[0]));
        assert(ops_well_formed(ops.skip(1))) by {
            assert forall|i: int| 0 <= i < ops.skip(1).len() implies op_well_formed(
                #[trigger] ops.skip(1)[i],
            ) by {
                assert(ops.skip(1)[i] == ops[i + 1]);
            }
        }
        lemma_strip_op_lines(ops.skip(1));
        let a = record_lines(ops[0]);
        let b = op_lines(ops.skip(1));
        assert(set_tag().last() == 't' && del_tag().last() == 'l');
        assert(a.map_values(|l: Seq<char>| strip_cr(l)) =~= a);
        assert((a + b).map_values(|l: Seq<char>| strip_cr(l)) =~= a.map_values(
            |l: Seq<char>| strip_cr(l),
        ) + b.map_values(|l: Seq<char>| strip_cr(l)));
    }
}

/// Replaying a well-formed log followed by any text is replaying the
/// lines of that text, starting from the mapping the log replays to: a log
/// and what is appended to it replay one after the other.
pub proof fn lemma_replay_concat(ops: Seq<LogOp>, t: Seq<char>)
    requires
        ops_well_formed(ops),
    ensures
        replay_text(log_text(ops) + t) == replay_lines(lines_of(t), apply_ops(ops, Map::empty())),
{
    let (dt, ct) = lines_acc(t);
    lemma_lines_acc_log(ops);
    lemma_lines_acc_concat(log_text(ops), t);
    lemma_strip_op_lines(ops);
    let o = op_lines(ops);
    let sd = dt.map_values(|l: Seq<char>| strip_cr(l));
    assert((o + dt).map_values(|l: Seq<char>| strip_cr(l)) =~= o.map_values(
        |l: Seq<char>| strip_cr(l),
    ) + sd);
    if ct.len() == 0 {
        assert(lines_of(log_text(ops) + t) == o + lines_of(t));
    } else {
        assert((o + sd).push(ct) =~= o + sd.push(ct));
        assert(lines_of(log_text(ops) + t) == o + lines_of(t));
    }
    lemma_replay_op_lines(ops, lines_of(t), Map::empty());
}

/// Replaying the log written by a sequence of well-formed operations gives
/// the mapping that applying the same operations in memory gives.
pub proof fn lemma_replay_equivalence(ops: Seq<LogOp>)
    requires
        ops_well_formed(ops),
    ensures
        replay_text(log_text(ops)) == Some(apply_ops(ops, Map::empty())),
{
    lemma_replay_concat(ops, Seq::empty());
    assert(log_text(ops) + Seq::<char>::empty() =~= log_text(ops));
    assert(lines_of(Seq::<char>::empty()) =~= Seq::<Seq<char>>::empty());
}

/// A log whose last record is cut short (a `Set` line without both key and
/// value lines after it, a `Del` line without its key line) or has an empty
/// key line is rejected as corrupt.
pub proof fn lemma_truncated_record_rejected(ops: Seq<LogOp>, t: Seq<char>)
    requires
        ops_well_formed(ops),
        lines_of(t).len() > 0,
        lines_of(t)[0] == set_tag() && (lines_of(t).len() < 3 || lines_of(t)[1].len() == 0)
            || lines_of(t)[0] == del_tag() && (lines_of(t).len() < 2 || lines_of(t)[1].len()
            == 0),
    ensures
        replay_text(log_text(ops) + t) is None,
{
    lemma_replay_concat(ops, t);
}

/// A log in which a record group starts with a line that is neither `Set`
/// nor `Del`, terminated or not, is rejected as corrupt, whatever follows.
pub proof fn lemma_unknown_tag_rejected(ops: Seq<LogOp>, t: Seq<char>)
    requires
        ops_well_formed(ops),
        lines_of(t).len() > 0,
        lines_of(t)[0] != set_tag(),
        lines_of(t)[0] != del_tag(),
    ensures
        replay_text(log_text(ops) + t) is None,
{
    lemma_replay_concat(ops, t);
}

} // verus!
