use vstd::prelude::*;

use crate::comment::Comment;
use crate::comment::CommentView;
use crate::goal::Goal;
use crate::goal::GoalView;
use crate::metrics::Metrics;
use crate::contract::ContractView;
use crate::metrics::TaskMetrics;
use crate::outcome::OutcomeView;
use crate::state::spec_goal_state_token;
use crate::state::spec_task_state_token;
use crate::state::GoalState;
use crate::state::TaskState;
use crate::task::Task;
use crate::task::TaskView;

verus! {

// ---------------------------------------------------------------------
// Escaping: record values may hold any text, including newlines, but a
// record file is parsed line by line. A backslash escape keeps the two
// apart: '\' becomes "\\" and a newline becomes "\n", so an escaped
// value never contains a bare newline and the original is recovered
// exactly.
// ---------------------------------------------------------------------

/// The escape of one character.
pub open spec fn esc_char(c: char) -> Seq<char> {
    if c == '\\' {
        seq!['\\', '\\']
    } else if c == '\n' {
        seq!['\\', 'n']
    } else {
        seq![c]
    }
}

/// The escape of a value.
pub open spec fn esc(s: Seq<char>) -> Seq<char>
    decreases s.len(),
{
    if s.len() == 0 {
        Seq::empty()
    } else {
        esc_char(s[0]) + esc(s.drop_first())
    }
}

/// The value an escaped segment stands for, if it is well formed.
pub open spec fn unesc(s: Seq<char>) -> Option<Seq<char>>
    decreases s.len(),
{
    if s.len() == 0 {
        Some(Seq::empty())
    } else if s[0] == '\\' {
        if s.len() < 2 {
            None
        } else if s[1] == '\\' {
            match unesc(s.skip(2)) {
                Some(t) => Some(seq!['\\'] + t),
                None => None,
            }
        } else if s[1] == 'n' {
            match unesc(s.skip(2)) {
                Some(t) => Some(seq!['\n'] + t),
                None => None,
            }
        } else {
            None
        }
    } else {
        match unesc(s.skip(1)) {
            Some(t) => Some(seq![s[0]] + t),
            None => None,
        }
    }
}

/// An escaped value contains no bare newline.
pub proof fn lemma_esc_no_newline(s: Seq<char>)
    ensures
        forall|i: int| 0 <= i < esc(s).len() ==> esc(s)[i] != '\n',
    decreases s.len(),
{
    if s.len() > 0 {
        lemma_esc_no_newline(s.drop_first());
        assert forall|i: int| 0 <= i < esc(s).len() implies esc(s)[i] != '\n' by {
            let head = esc_char(s[0]);
            if i < head.len() {
                assert(esc(s)[i] == head[i]);
            } else {
                assert(esc(s)[i] == esc(s.drop_first())[i - head.len()]);
            }
        }
    }
}

/// Unescaping inverts escaping: the round trip gives the value back.
pub proof fn lemma_unesc_esc(s: Seq<char>)
    ensures
        unesc(esc(s)) == Some(s),
    decreases s.len(),
{
    if s.len() == 0 {
        assert(esc(s) =~= Seq::<char>::empty());
    } else {
        let tail = s.drop_first();
        lemma_unesc_esc(tail);
        let e = esc(s);
        let head = esc_char(s[0]);
        if s[0] == '\\' {
            assert(e[0] == '\\' && e[1] == '\\');
            assert(e.skip(2) =~= esc(tail));
            assert(unesc(e) == Some(seq!['\\'] + tail));
            assert(seq!['\\'] + tail =~= s);
        } else if s[0] == '\n' {
            assert(e[0] == '\\' && e[1] == 'n');
            assert(e.skip(2) =~= esc(tail));
            assert(unesc(e) == Some(seq!['\n'] + tail));
            assert(seq!['\n'] + tail =~= s);
        } else {
            assert(e[0] == s[0]);
            assert(e[0] != '\\');
            assert(e.skip(1) =~= esc(tail));
            assert(unesc(e) == Some(seq![s[0]] + tail));
            assert(seq![s[0]] + tail =~= s);
        }
    }
}

/// Escape a value.
pub fn escape(s: &Vec<char>) -> (r: Vec<char>)
    ensures
        r@ == esc(s@),
{
    let mut r: Vec<char> = Vec::new();
    let mut i: usize = 0;
    proof {
        assert(s@.take(0) =~= Seq::<char>::empty());
    }
    while i < s.len()
        invariant
            i <= s.len(),
            r@ == esc(s@.take(i as int)),
        decreases s.len() - i,
    {
        let ghost pre = s@.take(i as int);
        let c = s[i];
        if c == '\\' {
            r.push('\\');
            r.push('\\');
        } else if c == '\n' {
            r.push('\\');
            r.push('n');
        } else {
            r.push(c);
        }
        proof {
            lemma_esc_snoc(s@.take(i as int + 1));
            assert(s@.take(i as int + 1).drop_last() =~= pre);
            assert(s@.take(i as int + 1).last() == c);
            assert(r@ =~= esc(pre) + esc_char(c));
        }
        i = i + 1;
    }
    proof {
        assert(s@.take(s@.len() as int) =~= s@);
    }
    r
}

/// Escaping distributes over dropping the last character.
proof fn lemma_esc_snoc(s: Seq<char>)
    requires
        s.len() > 0,
    ensures
        esc(s) == esc(s.drop_last()) + esc_char(s.last()),
    decreases s.len(),
{
    if s.len() == 1 {
        assert(s.drop_last() =~= Seq::<char>::empty());
        assert(s.drop_first() =~= Seq::<char>::empty());
        assert(esc(s) == esc_char(s[0]) + esc(s.drop_first()));
        assert(esc(Seq::<char>::empty()) == Seq::<char>::empty());
        assert(esc(s) =~= esc_char(s[0]));
        assert(esc(s.drop_last()) + esc_char(s.last()) =~= esc_char(s[0]));
    } else {
        let tail = s.drop_first();
        lemma_esc_snoc(tail);
        assert(tail.drop_last() =~= s.drop_last().drop_first());
        assert(tail.last() == s.last());
        assert(esc(s.drop_last()) == esc_char(s[0]) + esc(s.drop_last().drop_first()));
        assert(esc(s) =~= esc(s.drop_last()) + esc_char(s.last()));
    }
}

/// Unescape a segment; a malformed escape yields nothing.
pub fn unescape(s: &Vec<char>) -> (r: Option<Vec<char>>)
    ensures
        match r {
            Some(v) => unesc(s@) == Some(v@),
            None => unesc(s@) is None,
        },
{
    let mut out: Vec<char> = Vec::new();
    let mut i: usize = 0;
    proof {
        assert(s@.skip(0) =~= s@);
        assert forall|t: Seq<char>| unesc(s@.skip(0)) == Some(t) implies unesc(s@) == Some(
            out@ + t,
        ) by {
            assert(out@ + t =~= t);
        }
    }
    while i < s.len()
        invariant
            i <= s.len(),
            forall|t: Seq<char>|
                unesc(s@.skip(i as int)) == Some(t) ==> unesc(s@) == Some(out@ + t),
            (unesc(s@.skip(i as int)) is None) ==> (unesc(s@) is None),
        decreases s.len() - i,
    {
        let ghost rest = s@.skip(i as int);
        let c = s[i];
        proof {
            assert(rest[0] == c);
            assert(rest.skip(1) =~= s@.skip(i as int + 1));
            if i as int + 2 <= s@.len() {
                assert(rest.skip(2) =~= s@.skip(i as int + 2));
            }
        }
        if c == '\\' {
            if i + 1 >= s.len() {
                proof {
                    assert(rest.len() < 2);
                    assert(unesc(rest) is None);
                }
                return None;
            }
            let d = s[i + 1];
            proof {
                assert(rest[1] == d);
            }
            if d == '\\' {
                let ghost out0 = out@;
                out.push('\\');
                proof {
                    assert(out@.drop_last() =~= out0);
                    lemma_unesc_step(s@, i as int, out@, '\\');
                }
                i = i + 2;
            } else if d == 'n' {
                let ghost out0 = out@;
                out.push('\n');
                proof {
                    assert(out@.drop_last() =~= out0);
                    lemma_unesc_step(s@, i as int, out@, '\n');
                }
                i = i + 2;
            } else {
                proof {
                    assert(unesc(rest) is None);
                }
                return None;
            }
        } else {
            let ghost out0 = out@;
            out.push(c);
            proof {
                assert(out@.drop_last() =~= out0);
                assert forall|t: Seq<char>|
                    unesc(s@.skip(i as int + 1)) == Some(t) implies unesc(s@) == Some(
                    out@ + t,
                ) by {
                    assert(unesc(rest) == Some(seq![c] + t));
                    assert(unesc(s@) == Some(out0 + (seq![c] + t)));
                    assert(out@ + t =~= out0 + (seq![c] + t));
                }
                assert((unesc(s@.skip(i as int + 1)) is None) ==> (unesc(rest) is None));
            }
            i = i + 1;
        }
    }
    proof {
        assert(s@.skip(s@.len() as int) =~= Seq::<char>::empty());
        assert(unesc(s@.skip(s@.len() as int)) == Some(Seq::<char>::empty()));
        assert(unesc(s@) == Some(out@ + Seq::<char>::empty()));
        assert(out@ + Seq::<char>::empty() =~= out@);
    }
    Some(out)
}

/// One two-character escape step of the unescape loop.
proof fn lemma_unesc_step(s: Seq<char>, i: int, out_after: Seq<char>, decoded: char)
    requires
        0 <= i,
        i + 2 <= s.len(),
        s[i] == '\\',
        (decoded == '\\' && s[i + 1] == '\\') || (decoded == '\n' && s[i + 1] == 'n'),
        forall|t: Seq<char>|
            unesc(s.skip(i)) == Some(t) ==> unesc(s) == Some(out_after.drop_last() + t),
        (unesc(s.skip(i)) is None) ==> (unesc(s) is None),
        out_after.len() > 0,
        out_after.last() == decoded,
    ensures
        forall|t: Seq<char>|
            unesc(s.skip(i + 2)) == Some(t) ==> unesc(s) == Some(out_after + t),
        (unesc(s.skip(i + 2)) is None) ==> (unesc(s) is None),
{
    let rest = s.skip(i);
    assert(rest[0] == '\\');
    assert(rest[1] == s[i + 1]);
    assert(rest.skip(2) =~= s.skip(i + 2));
    assert forall|t: Seq<char>|
        unesc(s.skip(i + 2)) == Some(t) implies unesc(s) == Some(out_after + t) by {
        assert(unesc(rest) == Some(seq![decoded] + t));
        assert(out_after.drop_last() + (seq![decoded] + t) =~= out_after + t);
    }
}

// ---------------------------------------------------------------------
// Lines: a record is a sequence of lines, each `key ' ' value '\n'` with
// the value escaped. Keys contain no space and no newline, so a line's
// structure is unambiguous.
// ---------------------------------------------------------------------

/// A key contains no space and no newline (and is non-empty), so the
/// line structure around it is unambiguous.
pub open spec fn key_ok(k: Seq<char>) -> bool {
    k.len() > 0 && forall|i: int| 0 <= i < k.len() ==> k[i] != ' ' && k[i] != '\n'
}

/// The position of the first newline at or after `from`.
pub open spec fn find_nl(s: Seq<char>, from: int) -> Option<int>
    decreases s.len() - from,
    when 0 <= from <= s.len()
{
    if from >= s.len() {
        None
    } else if s[from] == '\n' {
        Some(from)
    } else {
        find_nl(s, from + 1)
    }
}

/// What a newline search returns: the first newline at or after `from`.
proof fn lemma_find_nl_props(s: Seq<char>, from: int)
    requires
        0 <= from <= s.len(),
    ensures
        match find_nl(s, from) {
            Some(i) => from <= i < s.len() && s[i] == '\n',
            None => forall|m: int| from <= m < s.len() ==> s[m] != '\n',
        },
    decreases s.len() - from,
{
    if from < s.len() && s[from] != '\n' {
        lemma_find_nl_props(s, from + 1);
    }
}

/// A forward newline search that skips only other characters lands on
/// the newline.
proof fn lemma_find_nl_exact(s: Seq<char>, j: int, i: int)
    requires
        0 <= j <= i < s.len(),
        forall|k: int| j <= k < i ==> s[k] != '\n',
        s[i] == '\n',
    ensures
        find_nl(s, j) == Some(i),
    decreases i - j,
{
    if j < i {
        lemma_find_nl_exact(s, j + 1, i);
    }
}

/// One record line: the key, a space, the escaped value, a newline.
pub open spec fn line(key: Seq<char>, value: Seq<char>) -> Seq<char> {
    key + seq![' '] + esc(value) + seq!['\n']
}

/// Parse one line with the expected key at `pos`: the unescaped value
/// and the position after the newline, or nothing if the text there is
/// not such a line.
pub open spec fn parse_line(s: Seq<char>, pos: int, key: Seq<char>) -> Option<(Seq<char>, int)> {
    let k = key.len() as int;
    if pos < 0 || pos + k + 1 > s.len() {
        None
    } else if s.subrange(pos, pos + k) != key {
        None
    } else if s[pos + k] != ' ' {
        None
    } else {
        match find_nl(s, pos + k + 1) {
            None => None,
            Some(nl) => match unesc(s.subrange(pos + k + 1, nl)) {
                None => None,
                Some(v) => Some((v, nl + 1)),
            },
        }
    }
}

/// Parsing with the key a line was written with recovers its value and
/// consumes exactly the line.
pub proof fn lemma_parse_line_inverts(s: Seq<char>, pos: int, key: Seq<char>, value: Seq<char>)
    requires
        key_ok(key),
        0 <= pos,
        pos + line(key, value).len() <= s.len(),
        s.subrange(pos, pos + line(key, value).len() as int) == line(key, value),
    ensures
        parse_line(s, pos, key) == Some((value, pos + line(key, value).len())),
{
    let k = key.len() as int;
    let e = esc(value);
    let l = line(key, value);
    let llen = l.len() as int;
    assert(llen == k + 1 + e.len() + 1);
    assert(forall|q: int| 0 <= q < llen ==> s[pos + q] == #[trigger] l[q]) by {
        assert(forall|q: int| 0 <= q < llen ==> #[trigger] s.subrange(pos, pos + llen)[q] == s[pos + q]);
    }
    assert(forall|q: int| 0 <= q < k ==> l[q] == key[q]);
    assert(l[k] == ' ');
    assert(forall|q: int| 0 <= q < e.len() ==> l[k + 1 + q] == #[trigger] e[q]);
    assert(l[k + 1 + e.len()] == '\n');
    assert(s.subrange(pos, pos + k) =~= key);
    assert(s[pos + k] == ' ');
    lemma_esc_no_newline(value);
    let nl = pos + k + 1 + e.len();
    assert(forall|m: int| pos + k + 1 <= m < nl ==> s[m] == e[m - (pos + k + 1)]);
    assert(forall|m: int| pos + k + 1 <= m < nl ==> s[m] != '\n');
    assert(s[nl] == '\n');
    lemma_find_nl_exact(s, pos + k + 1, nl);
    assert(s.subrange(pos + k + 1, nl) =~= e);
    lemma_unesc_esc(value);
    assert(parse_line(s, pos, key) == Some((value, nl + 1)));
}

/// Parsing with a different key than the line was written with fails:
/// since keys hold no space, the mismatch shows before the value starts.
pub proof fn lemma_parse_line_mismatch(
    s: Seq<char>,
    pos: int,
    key_attempt: Seq<char>,
    key_actual: Seq<char>,
    value: Seq<char>,
)
    requires
        key_ok(key_attempt),
        key_ok(key_actual),
        key_attempt != key_actual,
        0 <= pos,
        pos + line(key_actual, value).len() <= s.len(),
        s.subrange(pos, pos + line(key_actual, value).len() as int) == line(key_actual, value),
    ensures
        parse_line(s, pos, key_attempt) is None,
{
    let k1 = key_attempt.len() as int;
    let k2 = key_actual.len() as int;
    let l = line(key_actual, value);
    let llen = l.len() as int;
    assert(forall|q: int| 0 <= q < llen ==> s[pos + q] == #[trigger] l[q]) by {
        assert(forall|q: int| 0 <= q < llen ==> #[trigger] s.subrange(pos, pos + llen)[q] == s[pos + q]);
    }
    assert(forall|q: int| 0 <= q < k2 ==> l[q] == key_actual[q]);
    assert(l[k2] == ' ');
    if pos + k1 + 1 <= s.len() && s.subrange(pos, pos + k1) == key_attempt && s[pos + k1] == ' ' {
        assert(forall|q: int| 0 <= q < k1 ==> #[trigger] key_attempt[q] == s[pos + q]) by {
            assert(forall|q: int| 0 <= q < k1 ==> #[trigger] s.subrange(pos, pos + k1)[q] == s[pos + q]);
        }
        if k1 == k2 {
            assert(key_attempt =~= key_actual);
            assert(false);
        } else if k1 < k2 {
            assert(s[pos + k1] == key_actual[k1]);
            assert(false);
        } else {
            assert(key_attempt[k2] == s[pos + k2]);
            assert(s[pos + k2] == ' ');
            assert(false);
        }
    }
}

/// Append one line to a buffer.
pub fn emit_line(out: &mut Vec<char>, key: &str, value: &Vec<char>)
    ensures
        final(out)@ == old(out)@ + line(key@, value@),
{
    let n = key.unicode_len();
    let mut i: usize = 0;
    while i < n
        invariant
            n == key@.len(),
            i <= n,
            out@ == old(out)@ + key@.take(i as int),
        decreases n - i,
    {
        out.push(key.get_char(i));
        proof {
            assert(out@ =~= old(out)@ + key@.take(i as int + 1));
        }
        i = i + 1;
    }
    proof {
        assert(key@.take(n as int) =~= key@);
    }
    out.push(' ');
    let e = escape(value);
    let mut j: usize = 0;
    while j < e.len()
        invariant
            e@ == esc(value@),
            j <= e.len(),
            out@ == old(out)@ + key@ + seq![' '] + e@.take(j as int),
        decreases e.len() - j,
    {
        out.push(e[j]);
        proof {
            assert(out@ =~= old(out)@ + key@ + seq![' '] + e@.take(j as int + 1));
        }
        j = j + 1;
    }
    proof {
        assert(e@.take(e@.len() as int) =~= e@);
    }
    out.push('\n');
    proof {
        assert(out@ =~= old(out)@ + line(key@, value@));
    }
}

/// Parse one line with the expected key at `pos`.
pub fn parse_line_exec(s: &Vec<char>, pos: usize, key: &str) -> (r: Option<(Vec<char>, usize)>)
    ensures
        match r {
            Some(v) => parse_line(s@, pos as int, key@) == Some((v.0@, v.1 as int)),
            None => parse_line(s@, pos as int, key@) is None,
        },
{
    let k = key.unicode_len();
    if pos >= s.len() || k >= s.len() - pos {
        return None;
    }
    let mut i: usize = 0;
    while i < k
        invariant
            k == key@.len(),
            pos + k + 1 <= s@.len(),
            s@.len() <= usize::MAX,
            i <= k,
            forall|q: int| 0 <= q < i ==> s@[pos + q] == key@[q],
        decreases k - i,
    {
        if !(s[pos + i] == key.get_char(i)) {
            proof {
                assert(s@.subrange(pos as int, pos as int + k as int)[i as int] != key@[i as int]);
                assert(s@.subrange(pos as int, pos as int + k as int) != key@);
            }
            return None;
        }
        i = i + 1;
    }
    proof {
        assert(s@.subrange(pos as int, pos as int + k as int) =~= key@);
    }
    if !(s[pos + k] == ' ') {
        return None;
    }
    let start = pos + k + 1;
    let ghost startg = start as int;
    let mut j: usize = start;
    while j < s.len() && !(s[j] == '\n')
        invariant
            0 <= startg <= j as int <= s@.len(),
            s@.len() <= usize::MAX,
            find_nl(s@, startg) == find_nl(s@, j as int),
        decreases s.len() - j,
    {
        proof {
            assert(find_nl(s@, j as int) == find_nl(s@, j as int + 1));
        }
        j = j + 1;
    }
    if j >= s.len() {
        proof {
            assert(find_nl(s@, startg) is None);
        }
        return None;
    }
    let nl = j;
    proof {
        assert(find_nl(s@, startg) == Some(nl as int));
    }
    let mut seg: Vec<char> = Vec::new();
    let mut m: usize = start;
    proof {
        assert(seg@ =~= s@.subrange(startg, startg));
    }
    while m < nl
        invariant
            0 <= startg <= m as int <= nl as int,
            nl < s@.len(),
            s@.len() <= usize::MAX,
            seg@ == s@.subrange(startg, m as int),
        decreases nl - m,
    {
        let ghost seg0 = seg@;
        seg.push(s[m]);
        proof {
            lemma_subrange_push(s@, startg, m as int);
            assert(seg@ == seg0.push(s@[m as int]));
        }
        m = m + 1;
    }
    match unescape(&seg) {
        Some(v) => Some((v, nl + 1)),
        None => None,
    }
}

/// Extending a subrange by one index appends that character.
proof fn lemma_subrange_push(s: Seq<char>, a: int, b: int)
    requires
        0 <= a <= b < s.len(),
    ensures
        s.subrange(a, b + 1) == s.subrange(a, b).push(s[b]),
{
    assert(s.subrange(a, b + 1) =~= s.subrange(a, b).push(s[b]));
}

// ---------------------------------------------------------------------
// Integers: a 64-bit value is written as a sign and exactly nineteen
// decimal digits, zero-padded, so the numeric part of a line has a fixed
// width and parsing needs no lookahead.
// ---------------------------------------------------------------------

/// Ten to the `k`.
pub open spec fn pow10(k: int) -> int
    decreases k,
    when k >= 0
{
    if k <= 0 {
        1
    } else {
        10 * pow10(k - 1)
    }
}

/// Powers of ten are positive.
proof fn lemma_pow10_pos(k: int)
    requires
        k >= 0,
    ensures
        pow10(k) >= 1,
    decreases k,
{
    if k > 0 {
        lemma_pow10_pos(k - 1);
    }
}

/// The character of one decimal digit.
pub open spec fn digit_char(d: int) -> char {
    if d == 0 {
        '0'
    } else if d == 1 {
        '1'
    } else if d == 2 {
        '2'
    } else if d == 3 {
        '3'
    } else if d == 4 {
        '4'
    } else if d == 5 {
        '5'
    } else if d == 6 {
        '6'
    } else if d == 7 {
        '7'
    } else if d == 8 {
        '8'
    } else {
        '9'
    }
}

/// Whether a character is a decimal digit.
pub open spec fn is_digit(c: char) -> bool {
    48 <= c as int && c as int <= 57
}

/// The value of one digit character.
pub open spec fn digit_val(c: char) -> int {
    (c as int) - 48
}

/// The low `k` decimal digits of a non-negative value, zero-padded.
pub open spec fn dec_chars(m: int, k: int) -> Seq<char>
    decreases k,
    when k >= 0
{
    if k <= 0 {
        Seq::empty()
    } else {
        dec_chars(m / 10, k - 1) + seq![digit_char(m % 10)]
    }
}

/// The value of a digit string, most significant first.
pub open spec fn dec_val(s: Seq<char>) -> int
    decreases s.len(),
{
    if s.len() == 0 {
        0
    } else {
        dec_val(s.drop_last()) * 10 + digit_val(s.last())
    }
}

/// Whether every character is a decimal digit.
pub open spec fn all_digits(s: Seq<char>) -> bool {
    forall|i: int| 0 <= i < s.len() ==> is_digit(s[i])
}

/// Reading back the digit string of a value below `10^k` gives the
/// value.
proof fn lemma_dec_chars_val(m: int, k: int)
    requires
        k >= 0,
        0 <= m < pow10(k),
    ensures
        dec_chars(m, k).len() == k,
        all_digits(dec_chars(m, k)),
        dec_val(dec_chars(m, k)) == m,
    decreases k,
{
    if k == 0 {
    } else {
        lemma_pow10_pos(k - 1);
        assert(m / 10 < pow10(k - 1) && 0 <= m / 10 && 0 <= m % 10 < 10) by (nonlinear_arith)
            requires
                0 <= m,
                m < 10 * pow10(k - 1),
                pow10(k - 1) >= 1,
        ;
        lemma_dec_chars_val(m / 10, k - 1);
        let front = dec_chars(m / 10, k - 1);
        let whole = dec_chars(m, k);
        assert(whole == front + seq![digit_char(m % 10)]);
        assert(whole.drop_last() =~= front);
        assert(whole.last() == digit_char(m % 10));
        assert(digit_val(digit_char(m % 10)) == m % 10);
        assert(dec_val(whole) == dec_val(front) * 10 + m % 10);
        assert(m == 10 * (m / 10) + m % 10) by (nonlinear_arith);
        assert(forall|i: int| 0 <= i < whole.len() ==> is_digit(#[trigger] whole[i])) by {
            assert(forall|i: int| 0 <= i < front.len() ==> is_digit(#[trigger] front[i]));
            assert(whole[k - 1] == digit_char(m % 10));
        }
    }
}

/// The magnitude of an integer.
pub open spec fn abs_int(x: int) -> int {
    if x >= 0 {
        x
    } else {
        -x
    }
}

/// The twenty characters a 64-bit value is written as: a sign and
/// nineteen digits.
pub open spec fn i64_chars(x: i64) -> Seq<char> {
    (if x >= 0 {
        seq!['+']
    } else {
        seq!['-']
    }) + dec_chars(abs_int(x as int), 19)
}

/// The value a twenty-character segment stands for, if well formed.
pub open spec fn parse_i64(seg: Seq<char>) -> Option<i64> {
    if seg.len() != 20 {
        None
    } else if seg[0] != '+' && seg[0] != '-' {
        None
    } else if !all_digits(seg.skip(1)) {
        None
    } else {
        let m = dec_val(seg.skip(1));
        if seg[0] == '+' {
            if m <= i64::MAX {
                Some(m as i64)
            } else {
                None
            }
        } else {
            if m <= 0x8000_0000_0000_0000 {
                Some((-m) as i64)
            } else {
                None
            }
        }
    }
}

/// Parsing inverts writing for every 64-bit value.
pub proof fn lemma_parse_i64_chars(x: i64)
    ensures
        i64_chars(x).len() == 20,
        parse_i64(i64_chars(x)) == Some(x),
{
    reveal_with_fuel(pow10, 20);
    assert(pow10(19) == 10_000_000_000_000_000_000);
    let m = abs_int(x as int);
    assert(0 <= m < pow10(19));
    lemma_dec_chars_val(m, 19);
    let seg = i64_chars(x);
    assert(seg.skip(1) =~= dec_chars(m, 19));
    assert(seg[0] == (if x >= 0 { '+' } else { '-' }));
    assert(seg.len() == 20);
    assert(dec_val(seg.skip(1)) == m);
    if x >= 0 {
        assert(parse_i64(seg) == Some(m as i64));
    } else {
        assert(m <= 0x8000_0000_0000_0000);
        assert(parse_i64(seg) == Some((-m) as i64));
    }
}

/// One decimal digit as a character.
fn digit_char_exec(d: u64) -> (r: char)
    requires
        d < 10,
    ensures
        r == digit_char(d as int),
{
    if d == 0 {
        '0'
    } else if d == 1 {
        '1'
    } else if d == 2 {
        '2'
    } else if d == 3 {
        '3'
    } else if d == 4 {
        '4'
    } else if d == 5 {
        '5'
    } else if d == 6 {
        '6'
    } else if d == 7 {
        '7'
    } else if d == 8 {
        '8'
    } else {
        '9'
    }
}

/// The low `k` decimal digits of a value, zero-padded.
fn dec_chars_exec(m: u64, k: usize) -> (r: Vec<char>)
    ensures
        r@ == dec_chars(m as int, k as int),
    decreases k,
{
    if k == 0 {
        let r: Vec<char> = Vec::new();
        proof {
            assert(r@ =~= dec_chars(m as int, 0));
        }
        r
    } else {
        let mut front = dec_chars_exec(m / 10, k - 1);
        front.push(digit_char_exec(m % 10));
        proof {
            assert(front@ =~= dec_chars(m as int, k as int));
        }
        front
    }
}

/// Write a 64-bit value as its twenty characters.
pub fn i64_to_chars(x: i64) -> (r: Vec<char>)
    ensures
        r@ == i64_chars(x),
{
    let mut r: Vec<char> = Vec::new();
    let mag: u64 = if x >= 0 {
        r.push('+');
        x as u64
    } else {
        r.push('-');
        ((-(x + 1)) as u64) + 1
    };
    proof {
        assert(mag as int == abs_int(x as int));
    }
    let ds = dec_chars_exec(mag, 19);
    let mut j: usize = 0;
    while j < ds.len()
        invariant
            ds@ == dec_chars(abs_int(x as int), 19),
            j <= ds.len(),
            r@ == (if x >= 0 {
                seq!['+']
            } else {
                seq!['-']
            }) + ds@.take(j as int),
        decreases ds.len() - j,
    {
        r.push(ds[j]);
        proof {
            assert(r@ =~= (if x >= 0 {
                seq!['+']
            } else {
                seq!['-']
            }) + ds@.take(j as int + 1));
        }
        j = j + 1;
    }
    proof {
        assert(ds@.take(ds@.len() as int) =~= ds@);
        assert(r@ =~= i64_chars(x));
    }
    r
}

/// The value of one digit character, or nothing for any other
/// character.
fn digit_val_exec(c: char) -> (r: Option<u64>)
    ensures
        match r {
            Some(d) => is_digit(c) && d < 10 && d as int == digit_val(c),
            None => !is_digit(c),
        },
{
    if c == '0' {
        Some(0)
    } else if c == '1' {
        Some(1)
    } else if c == '2' {
        Some(2)
    } else if c == '3' {
        Some(3)
    } else if c == '4' {
        Some(4)
    } else if c == '5' {
        Some(5)
    } else if c == '6' {
        Some(6)
    } else if c == '7' {
        Some(7)
    } else if c == '8' {
        Some(8)
    } else if c == '9' {
        Some(9)
    } else {
        proof {
            assert('0' as int == 48 && '1' as int == 49 && '2' as int == 50 && '3' as int == 51
                && '4' as int == 52 && '5' as int == 53 && '6' as int == 54 && '7' as int == 55
                && '8' as int == 56 && '9' as int == 57);
            if 48 <= c as int && c as int <= 57 {
                assert(false);
            }
        }
        None
    }
}

/// Read a 64-bit value back from its twenty characters.
pub fn i64_from_chars(seg: &Vec<char>) -> (r: Option<i64>)
    ensures
        match r {
            Some(x) => parse_i64(seg@) == Some(x),
            None => parse_i64(seg@) is None,
        },
{
    proof {
        reveal_with_fuel(pow10, 20);
        assert(pow10(19) == 10_000_000_000_000_000_000);
    }
    if seg.len() != 20 {
        return None;
    }
    let sign = seg[0];
    if !(sign == '+') && !(sign == '-') {
        return None;
    }
    let ghost digits = seg@.skip(1);
    let mut val: u64 = 0;
    let mut k: usize = 1;
    proof {
        assert(digits.subrange(0, 0) =~= Seq::<char>::empty());
        lemma_pow10_pos(0);
    }
    while k < 20
        invariant
            seg@.len() == 20,
            digits == seg@.skip(1),
            1 <= k <= 20,
            val as int == dec_val(digits.subrange(0, k as int - 1)),
            all_digits(digits.subrange(0, k as int - 1)),
            val < pow10(k as int - 1),
            pow10(19) == 10_000_000_000_000_000_000,
        decreases 20 - k,
    {
        let c = seg[k];
        let d = match digit_val_exec(c) {
            Some(d) => d,
            None => {
                proof {
                    assert(digits[k as int - 1] == c);
                    assert(!all_digits(digits));
                }
                return None;
            },
        };
        proof {
            assert(pow10(k as int) == 10 * pow10(k as int - 1));
            lemma_pow10_pos(k as int - 1);
            assert(pow10(k as int) <= pow10(19)) by {
                lemma_pow10_mono(k as int, 19);
            }
        }
        let newval = val * 10 + d;
        proof {
            lemma_subrange_push(digits, 0, k as int - 1);
            assert(digits[k as int - 1] == c);
            assert(digits.subrange(0, k as int) == digits.subrange(0, k as int - 1).push(c));
            assert(digits.subrange(0, k as int).drop_last() =~= digits.subrange(0, k as int - 1));
            assert(digits.subrange(0, k as int).last() == c);
            assert(digit_val(c) == d as int);
            assert(dec_val(digits.subrange(0, k as int)) == dec_val(
                digits.subrange(0, k as int - 1),
            ) * 10 + digit_val(c));
            assert(newval as int == dec_val(digits.subrange(0, k as int)));
            assert(newval < pow10(k as int));
            assert(all_digits(digits.subrange(0, k as int)));
        }
        val = newval;
        k = k + 1;
    }
    proof {
        assert(digits.subrange(0, 19) =~= digits);
        assert(all_digits(digits));
        assert(dec_val(digits) == val as int);
    }
    if sign == '+' {
        if val > 9_223_372_036_854_775_807u64 {
            return None;
        }
        Some(val as i64)
    } else {
        if val > 9_223_372_036_854_775_808u64 {
            return None;
        }
        if val == 0 {
            Some(0)
        } else {
            let x = -((val - 1) as i64) - 1;
            proof {
                assert(x as int == -(val as int));
            }
            Some(x)
        }
    }
}

/// Powers of ten grow with the exponent.
proof fn lemma_pow10_mono(a: int, b: int)
    requires
        0 <= a <= b,
    ensures
        pow10(a) <= pow10(b),
    decreases b - a,
{
    if a < b {
        lemma_pow10_mono(a, b - 1);
        lemma_pow10_pos(b - 1);
        assert(pow10(b) == 10 * pow10(b - 1));
    }
}

// ---------------------------------------------------------------------
// Positional glue: a record is parsed by a cursor; these lemmas move a
// parse between absolute positions and the head of the remaining text.
// ---------------------------------------------------------------------

/// A newline search shifts with the text.
proof fn lemma_find_nl_shift(s: Seq<char>, pos: int, from: int)
    requires
        0 <= pos <= from <= s.len(),
    ensures
        find_nl(s, from) == (match find_nl(s.skip(pos), from - pos) {
            Some(i) => Some(i + pos),
            None => None,
        }),
    decreases s.len() - from,
{
    let t = s.skip(pos);
    assert(t.len() == s.len() - pos);
    if from < s.len() {
        assert(t[from - pos] == s[from]);
        if s[from] != '\n' {
            lemma_find_nl_shift(s, pos, from + 1);
        }
    }
}

/// A line parse shifts with the text.
proof fn lemma_parse_line_shift(s: Seq<char>, pos: int, key: Seq<char>)
    requires
        0 <= pos <= s.len(),
    ensures
        parse_line(s, pos, key) == (match parse_line(s.skip(pos), 0, key) {
            Some((v, p)) => Some((v, p + pos)),
            None => None,
        }),
{
    let t = s.skip(pos);
    let k = key.len() as int;
    if pos + k + 1 <= s.len() {
        assert(t.subrange(0, k) =~= s.subrange(pos, pos + k));
        assert(t[k] == s[pos + k]);
        if s.subrange(pos, pos + k) == key && s[pos + k] == ' ' {
            lemma_find_nl_shift(s, pos, pos + k + 1);
            lemma_find_nl_props(t, k + 1);
            match find_nl(t, k + 1) {
                Some(i) => {
                    assert(find_nl(s, pos + k + 1) == Some(i + pos));
                    assert(t.subrange(k + 1, i) =~= s.subrange(pos + k + 1, i + pos));
                },
                None => {
                    assert(find_nl(s, pos + k + 1) is None);
                },
            }
        }
    }
}

/// Parsing the key a head line was written with recovers its value.
proof fn lemma_parse_line_head(key: Seq<char>, value: Seq<char>, rest: Seq<char>)
    requires
        key_ok(key),
    ensures
        parse_line(line(key, value) + rest, 0, key) == Some(
            (value, line(key, value).len() as int),
        ),
{
    let s = line(key, value) + rest;
    assert(s.subrange(0, line(key, value).len() as int) =~= line(key, value));
    lemma_parse_line_inverts(s, 0, key, value);
}

/// Parsing a different key than the head line was written with fails.
proof fn lemma_parse_line_head_mismatch(
    key_attempt: Seq<char>,
    key_actual: Seq<char>,
    value: Seq<char>,
    rest: Seq<char>,
)
    requires
        key_ok(key_attempt),
        key_ok(key_actual),
        key_attempt != key_actual,
    ensures
        parse_line(line(key_actual, value) + rest, 0, key_attempt) is None,
{
    let s = line(key_actual, value) + rest;
    assert(s.subrange(0, line(key_actual, value).len() as int) =~= line(key_actual, value));
    lemma_parse_line_mismatch(s, 0, key_attempt, key_actual, value);
}

// ---------------------------------------------------------------------
// Goal records.
// ---------------------------------------------------------------------

/// Whether an integer lies in the 64-bit signed range.
pub open spec fn time_fits(x: int) -> bool {
    i64::MIN <= x <= i64::MAX
}

/// Whether a goal's timestamps lie in the 64-bit range a record file
/// stores; every goal built by the library does.
pub open spec fn goal_fits(g: GoalView) -> bool {
    &&& time_fits(g.created_at)
    &&& time_fits(g.updated_at)
    &&& match g.completed_at {
        Some(t) => time_fits(t),
        None => true,
    }
}

/// The goal state a record token stands for.
pub open spec fn goal_state_of_token(v: Seq<char>) -> Option<GoalState> {
    if v == spec_goal_state_token(GoalState::Pending) {
        Some(GoalState::Pending)
    } else if v == spec_goal_state_token(GoalState::InProgress) {
        Some(GoalState::InProgress)
    } else if v == spec_goal_state_token(GoalState::Completed) {
        Some(GoalState::Completed)
    } else if v == spec_goal_state_token(GoalState::Failed) {
        Some(GoalState::Failed)
    } else {
        None
    }
}

/// One cursor step: parsing the head line of the remaining text.
proof fn lemma_step(s: Seq<char>, pos: int, key: Seq<char>, value: Seq<char>, rest: Seq<char>)
    requires
        key_ok(key),
        0 <= pos <= s.len(),
        s.skip(pos) == line(key, value) + rest,
    ensures
        parse_line(s, pos, key) == Some((value, pos + line(key, value).len())),
        pos + line(key, value).len() + rest.len() == s.len(),
        s.skip(pos + line(key, value).len() as int) == rest,
{
    lemma_parse_line_shift(s, pos, key);
    lemma_parse_line_head(key, value, rest);
    let l = line(key, value).len() as int;
    assert(s.skip(pos).len() == s.len() - pos);
    assert(s.skip(pos).skip(l) =~= s.skip(pos + l));
    assert((line(key, value) + rest).skip(l) =~= rest);
    assert(s.skip(pos).skip(l) == (line(key, value) + rest).skip(l));
}

/// One cursor step that meets a different key and fails.
proof fn lemma_step_mismatch(
    s: Seq<char>,
    pos: int,
    key_attempt: Seq<char>,
    key_actual: Seq<char>,
    value: Seq<char>,
    rest: Seq<char>,
)
    requires
        key_ok(key_attempt),
        key_ok(key_actual),
        key_attempt != key_actual,
        0 <= pos <= s.len(),
        s.skip(pos) == line(key_actual, value) + rest,
    ensures
        parse_line(s, pos, key_attempt) is None,
{
    lemma_parse_line_shift(s, pos, key_attempt);
    lemma_parse_line_head_mismatch(key_attempt, key_actual, value, rest);
}

/// The text of the seven metric lines of a goal record.
pub open spec fn spec_encode_goal_metrics(m: Metrics) -> Seq<char> {
    line("total_tokens"@, i64_chars(m.total_tokens)) + (line(
        "prompt_tokens"@,
        i64_chars(m.prompt_tokens),
    ) + (line("completion_tokens"@, i64_chars(m.completion_tokens)) + (line(
        "elapsed_ms"@,
        i64_chars(m.elapsed_ms),
    ) + (line("task_count"@, i64_chars(m.task_count)) + (line(
        "tasks_completed"@,
        i64_chars(m.tasks_completed),
    ) + line("tasks_failed"@, i64_chars(m.tasks_failed)))))))
}

/// The text of a goal record: one line per field, optional fields
/// omitted when absent, the metrics last.
pub open spec fn spec_encode_goal(g: GoalView) -> Seq<char> {
    line("id"@, g.id) + ((match g.parent_id {
        Some(p) => line("parent_id"@, p),
        None => Seq::<char>::empty(),
    }) + (line("description"@, g.description) + (line("state"@, spec_goal_state_token(g.state))
        + (line("created_at"@, i64_chars(g.created_at as i64)) + (line(
        "updated_at"@,
        i64_chars(g.updated_at as i64),
    ) + ((match g.completed_at {
        Some(t) => line("completed_at"@, i64_chars(t as i64)),
        None => Seq::<char>::empty(),
    }) + spec_encode_goal_metrics(g.metrics)))))))
}

/// Parse one integer-valued line.
pub open spec fn parse_i64_line(s: Seq<char>, pos: int, key: Seq<char>) -> Option<(i64, int)> {
    match parse_line(s, pos, key) {
        None => None,
        Some((v, p)) => match parse_i64(v) {
            None => None,
            Some(x) => Some((x, p)),
        },
    }
}

/// The seven metric lines of a goal record.
pub open spec fn spec_decode_goal_metrics(s: Seq<char>, pos: int) -> Option<(Metrics, int)> {
    match parse_i64_line(s, pos, "total_tokens"@) {
        None => None,
        Some((total_tokens, q1)) => match parse_i64_line(s, q1, "prompt_tokens"@) {
            None => None,
            Some((prompt_tokens, q2)) => match parse_i64_line(s, q2, "completion_tokens"@) {
                None => None,
                Some((completion_tokens, q3)) => match parse_i64_line(s, q3, "elapsed_ms"@) {
                    None => None,
                    Some((elapsed_ms, q4)) => match parse_i64_line(s, q4, "task_count"@) {
                        None => None,
                        Some((task_count, q5)) => match parse_i64_line(s, q5, "tasks_completed"@) {
                            None => None,
                            Some((tasks_completed, q6)) => match parse_i64_line(
                                s,
                                q6,
                                "tasks_failed"@,
                            ) {
                                None => None,
                                Some((tasks_failed, q7)) => Some(
                                    (
                                        Metrics {
                                            total_tokens,
                                            prompt_tokens,
                                            completion_tokens,
                                            elapsed_ms,
                                            task_count,
                                            tasks_completed,
                                            tasks_failed,
                                        },
                                        q7,
                                    ),
                                ),
                            },
                        },
                    },
                },
            },
        },
    }
}

/// The goal record a text stands for, if the whole text is one
/// well-formed goal record.
pub open spec fn spec_decode_goal(s: Seq<char>) -> Option<GoalView> {
    match parse_line(s, 0, "id"@) {
        None => None,
        Some((id, p1)) => {
            let (parent_id, p2) = match parse_line(s, p1, "parent_id"@) {
                Some((pv, p)) => (Some(pv), p),
                None => (None, p1),
            };
            match parse_line(s, p2, "description"@) {
                None => None,
                Some((description, p3)) => match parse_line(s, p3, "state"@) {
                    None => None,
                    Some((sv, p4)) => match goal_state_of_token(sv) {
                        None => None,
                        Some(state) => match parse_i64_line(s, p4, "created_at"@) {
                            None => None,
                            Some((created_at, p5)) => match parse_i64_line(s, p5, "updated_at"@) {
                                None => None,
                                Some((updated_at, p6)) => {
                                    let (completed_at, p7) = match parse_i64_line(
                                        s,
                                        p6,
                                        "completed_at"@,
                                    ) {
                                        Some((t, p)) => (Some(t as int), p),
                                        None => (None, p6),
                                    };
                                    match spec_decode_goal_metrics(s, p7) {
                                        None => None,
                                        Some((metrics, p8)) => if p8 == s.len() {
                                            Some(
                                                GoalView {
                                                    id,
                                                    parent_id,
                                                    description,
                                                    state,
                                                    created_at: created_at as int,
                                                    updated_at: updated_at as int,
                                                    completed_at,
                                                    metrics,
                                                },
                                            )
                                        } else {
                                            None
                                        },
                                    }
                                },
                            },
                        },
                    },
                },
            }
        },
    }
}

/// The keys of a goal record are well formed and pairwise usable.
proof fn lemma_goal_keys()
    ensures
        key_ok("id"@),
        key_ok("parent_id"@),
        key_ok("description"@),
        key_ok("state"@),
        key_ok("created_at"@),
        key_ok("updated_at"@),
        key_ok("completed_at"@),
        key_ok("total_tokens"@),
        key_ok("prompt_tokens"@),
        key_ok("completion_tokens"@),
        key_ok("elapsed_ms"@),
        key_ok("task_count"@),
        key_ok("tasks_completed"@),
        key_ok("tasks_failed"@),
        "parent_id"@ != "description"@,
        "completed_at"@ != "total_tokens"@,
{
    reveal_strlit("id");
    reveal_strlit("parent_id");
    reveal_strlit("description");
    reveal_strlit("state");
    reveal_strlit("created_at");
    reveal_strlit("updated_at");
    reveal_strlit("completed_at");
    reveal_strlit("total_tokens");
    reveal_strlit("prompt_tokens");
    reveal_strlit("completion_tokens");
    reveal_strlit("elapsed_ms");
    reveal_strlit("task_count");
    reveal_strlit("tasks_completed");
    reveal_strlit("tasks_failed");
    assert("id"@.len() == 2);
    assert("parent_id"@.len() == 9);
    assert("description"@.len() == 11);
    assert("state"@.len() == 5);
    assert("created_at"@.len() == 10);
    assert("updated_at"@.len() == 10);
    assert("completed_at"@.len() == 12);
    assert("total_tokens"@.len() == 12);
    assert("prompt_tokens"@.len() == 13);
    assert("completion_tokens"@.len() == 17);
    assert("elapsed_ms"@.len() == 10);
    assert("task_count"@.len() == 10);
    assert("tasks_completed"@.len() == 15);
    assert("tasks_failed"@.len() == 12);
    assert("completed_at"@[0] == 'c' && "total_tokens"@[0] == 't');
}

/// The metric lines at the end of a record read back exactly.
#[verifier::rlimit(100)]
proof fn lemma_goal_metrics_round_trip(s: Seq<char>, pos: int, m: Metrics)
    requires
        0 <= pos <= s.len(),
        s.skip(pos) == spec_encode_goal_metrics(m),
    ensures
        spec_decode_goal_metrics(s, pos) == Some((m, s.len() as int)),
{
    lemma_goal_keys();
    let r7 = line("prompt_tokens"@, i64_chars(m.prompt_tokens)) + (line(
        "completion_tokens"@,
        i64_chars(m.completion_tokens),
    ) + (line("elapsed_ms"@, i64_chars(m.elapsed_ms)) + (line(
        "task_count"@,
        i64_chars(m.task_count),
    ) + (line("tasks_completed"@, i64_chars(m.tasks_completed)) + line(
        "tasks_failed"@,
        i64_chars(m.tasks_failed),
    )))));
    lemma_step(s, pos, "total_tokens"@, i64_chars(m.total_tokens), r7);
    lemma_parse_i64_chars(m.total_tokens);
    let q1 = pos + line("total_tokens"@, i64_chars(m.total_tokens)).len() as int;
    let r8 = line("completion_tokens"@, i64_chars(m.completion_tokens)) + (line(
        "elapsed_ms"@,
        i64_chars(m.elapsed_ms),
    ) + (line("task_count"@, i64_chars(m.task_count)) + (line(
        "tasks_completed"@,
        i64_chars(m.tasks_completed),
    ) + line("tasks_failed"@, i64_chars(m.tasks_failed)))));
    lemma_step(s, q1, "prompt_tokens"@, i64_chars(m.prompt_tokens), r8);
    lemma_parse_i64_chars(m.prompt_tokens);
    let q2 = q1 + line("prompt_tokens"@, i64_chars(m.prompt_tokens)).len() as int;
    let r9 = line("elapsed_ms"@, i64_chars(m.elapsed_ms)) + (line(
        "task_count"@,
        i64_chars(m.task_count),
    ) + (line("tasks_completed"@, i64_chars(m.tasks_completed)) + line(
        "tasks_failed"@,
        i64_chars(m.tasks_failed),
    )));
    lemma_step(s, q2, "completion_tokens"@, i64_chars(m.completion_tokens), r9);
    lemma_parse_i64_chars(m.completion_tokens);
    let q3 = q2 + line("completion_tokens"@, i64_chars(m.completion_tokens)).len() as int;
    let r10 = line("task_count"@, i64_chars(m.task_count)) + (line(
        "tasks_completed"@,
        i64_chars(m.tasks_completed),
    ) + line("tasks_failed"@, i64_chars(m.tasks_failed)));
    lemma_step(s, q3, "elapsed_ms"@, i64_chars(m.elapsed_ms), r10);
    lemma_parse_i64_chars(m.elapsed_ms);
    let q4 = q3 + line("elapsed_ms"@, i64_chars(m.elapsed_ms)).len() as int;
    let r11 = line("tasks_completed"@, i64_chars(m.tasks_completed)) + line(
        "tasks_failed"@,
        i64_chars(m.tasks_failed),
    );
    lemma_step(s, q4, "task_count"@, i64_chars(m.task_count), r11);
    lemma_parse_i64_chars(m.task_count);
    let q5 = q4 + line("task_count"@, i64_chars(m.task_count)).len() as int;
    let r12 = line("tasks_failed"@, i64_chars(m.tasks_failed));
    lemma_step(s, q5, "tasks_completed"@, i64_chars(m.tasks_completed), r12);
    lemma_parse_i64_chars(m.tasks_completed);
    let q6 = q5 + line("tasks_completed"@, i64_chars(m.tasks_completed)).len() as int;
    assert(r12 =~= line("tasks_failed"@, i64_chars(m.tasks_failed)) + Seq::<char>::empty());
    lemma_step(s, q6, "tasks_failed"@, i64_chars(m.tasks_failed), Seq::<char>::empty());
    lemma_parse_i64_chars(m.tasks_failed);
    let q7 = q6 + line("tasks_failed"@, i64_chars(m.tasks_failed)).len() as int;
    assert(q7 == s.len());
}

/// A state's own token reads back as that state.
proof fn proof_goal_state_token(st: GoalState)
    ensures
        goal_state_of_token(spec_goal_state_token(st)) == Some(st),
{
    crate::state::lemma_goal_state_token_injective(st, GoalState::Pending);
    crate::state::lemma_goal_state_token_injective(st, GoalState::InProgress);
    crate::state::lemma_goal_state_token_injective(st, GoalState::Completed);
    crate::state::lemma_goal_state_token_injective(st, GoalState::Failed);
}

/// Decoding inverts encoding for every goal record: the round trip
/// through the record text gives back a goal equal in every field,
/// including optional fields set to absent.
#[verifier::rlimit(100)]
pub proof fn lemma_goal_round_trip(g: GoalView)
    requires
        goal_fits(g),
    ensures
        spec_decode_goal(spec_encode_goal(g)) == Some(g),
{
    lemma_goal_keys();
    let s = spec_encode_goal(g);
    let tok = spec_goal_state_token(g.state);
    let mtail = spec_encode_goal_metrics(g.metrics);
    let r6 = (match g.completed_at {
        Some(t) => line("completed_at"@, i64_chars(t as i64)),
        None => Seq::<char>::empty(),
    }) + mtail;
    let r5 = line("updated_at"@, i64_chars(g.updated_at as i64)) + r6;
    let r4 = line("created_at"@, i64_chars(g.created_at as i64)) + r5;
    let r3 = line("state"@, tok) + r4;
    let r2 = line("description"@, g.description) + r3;
    let r1 = (match g.parent_id {
        Some(p) => line("parent_id"@, p),
        None => Seq::<char>::empty(),
    }) + r2;
    assert(s == line("id"@, g.id) + r1);
    assert(s.skip(0) =~= s);
    lemma_step(s, 0, "id"@, g.id, r1);
    let p1 = 0 + line("id"@, g.id).len() as int;
    let p2: int;
    match g.parent_id {
        Some(p) => {
            assert(r1 =~= line("parent_id"@, p) + r2);
            assert(s.skip(p1) == line("parent_id"@, p) + r2);
            lemma_step(s, p1, "parent_id"@, p, r2);
            p2 = p1 + line("parent_id"@, p).len() as int;
        },
        None => {
            assert(r1 =~= r2);
            assert(s.skip(p1) == line("description"@, g.description) + r3);
            lemma_step_mismatch(s, p1, "parent_id"@, "description"@, g.description, r3);
            p2 = p1;
        },
    }
    assert(s.skip(p2) == r2);
    lemma_step(s, p2, "description"@, g.description, r3);
    let p3 = p2 + line("description"@, g.description).len() as int;
    lemma_step(s, p3, "state"@, tok, r4);
    let p4 = p3 + line("state"@, tok).len() as int;
    proof_goal_state_token(g.state);
    lemma_step(s, p4, "created_at"@, i64_chars(g.created_at as i64), r5);
    lemma_parse_i64_chars(g.created_at as i64);
    let p5 = p4 + line("created_at"@, i64_chars(g.created_at as i64)).len() as int;
    lemma_step(s, p5, "updated_at"@, i64_chars(g.updated_at as i64), r6);
    lemma_parse_i64_chars(g.updated_at as i64);
    let p6 = p5 + line("updated_at"@, i64_chars(g.updated_at as i64)).len() as int;
    let p7: int;
    match g.completed_at {
        Some(t) => {
            assert(r6 =~= line("completed_at"@, i64_chars(t as i64)) + mtail);
            assert(s.skip(p6) == line("completed_at"@, i64_chars(t as i64)) + mtail);
            lemma_step(s, p6, "completed_at"@, i64_chars(t as i64), mtail);
            lemma_parse_i64_chars(t as i64);
            p7 = p6 + line("completed_at"@, i64_chars(t as i64)).len() as int;
        },
        None => {
            assert(r6 =~= mtail);
            assert(s.skip(p6) == line("total_tokens"@, i64_chars(g.metrics.total_tokens))
                + (line("prompt_tokens"@, i64_chars(g.metrics.prompt_tokens)) + (line(
                "completion_tokens"@,
                i64_chars(g.metrics.completion_tokens),
            ) + (line("elapsed_ms"@, i64_chars(g.metrics.elapsed_ms)) + (line(
                "task_count"@,
                i64_chars(g.metrics.task_count),
            ) + (line("tasks_completed"@, i64_chars(g.metrics.tasks_completed)) + line(
                "tasks_failed"@,
                i64_chars(g.metrics.tasks_failed),
            )))))));
            lemma_step_mismatch(
                s,
                p6,
                "completed_at"@,
                "total_tokens"@,
                i64_chars(g.metrics.total_tokens),
                line("prompt_tokens"@, i64_chars(g.metrics.prompt_tokens)) + (line(
                    "completion_tokens"@,
                    i64_chars(g.metrics.completion_tokens),
                ) + (line("elapsed_ms"@, i64_chars(g.metrics.elapsed_ms)) + (line(
                    "task_count"@,
                    i64_chars(g.metrics.task_count),
                ) + (line("tasks_completed"@, i64_chars(g.metrics.tasks_completed)) + line(
                    "tasks_failed"@,
                    i64_chars(g.metrics.tasks_failed),
                ))))),
            );
            p7 = p6;
        },
    }
    assert(s.skip(p7) == mtail);
    lemma_goal_metrics_round_trip(s, p7, g.metrics);
    assert(spec_decode_goal(s) == Some(g));
}

/// Whether a character vector spells the given string.
fn chars_eq_str(v: &Vec<char>, s: &str) -> (r: bool)
    ensures
        r == (v@ == s@),
{
    let n = s.unicode_len();
    if v.len() != n {
        return false;
    }
    let mut i: usize = 0;
    while i < n
        invariant
            n == s@.len(),
            v@.len() == n,
            i <= n,
            forall|k: int| 0 <= k < i ==> v@[k] == s@[k],
        decreases n - i,
    {
        if !(v[i] == s.get_char(i)) {
            return false;
        }
        i = i + 1;
    }
    proof {
        assert(v@ =~= s@);
    }
    true
}

/// Parse one integer-valued line.
fn parse_i64_line_exec(s: &Vec<char>, pos: usize, key: &str) -> (r: Option<(i64, usize)>)
    ensures
        match r {
            Some(v) => parse_i64_line(s@, pos as int, key@) == Some((v.0, v.1 as int)),
            None => parse_i64_line(s@, pos as int, key@) is None,
        },
{
    match parse_line_exec(s, pos, key) {
        None => None,
        Some((v, p)) => match i64_from_chars(&v) {
            None => None,
            Some(x) => Some((x, p)),
        },
    }
}

/// Write a goal record as text.
#[verifier::rlimit(100)]
pub fn encode_goal(g: &Goal) -> (r: Vec<char>)
    ensures
        r@ == spec_encode_goal(g@),
{
    let mut out: Vec<char> = Vec::new();
    let v_id = crate::text::str_to_chars(g.id.as_str());
    emit_line(&mut out, "id", &v_id);
    match &g.parent_id {
        Some(p) => {
            let v = crate::text::str_to_chars(p.as_str());
            emit_line(&mut out, "parent_id", &v);
        },
        None => {},
    }
    let v_desc = crate::text::str_to_chars(g.description.as_str());
    emit_line(&mut out, "description", &v_desc);
    let v_state = crate::text::str_to_chars(g.state.as_token());
    emit_line(&mut out, "state", &v_state);
    let v_ca = i64_to_chars(g.created_at);
    emit_line(&mut out, "created_at", &v_ca);
    let v_ua = i64_to_chars(g.updated_at);
    emit_line(&mut out, "updated_at", &v_ua);
    match g.completed_at {
        Some(t) => {
            let v = i64_to_chars(t);
            emit_line(&mut out, "completed_at", &v);
        },
        None => {},
    }
    emit_goal_metrics(&mut out, &g.metrics);
    proof {
        assert(out@ =~= spec_encode_goal(g@));
    }
    out
}

/// Append the seven metric lines of a goal record.
#[verifier::rlimit(100)]
fn emit_goal_metrics(out: &mut Vec<char>, m: &Metrics)
    ensures
        final(out)@ == old(out)@ + spec_encode_goal_metrics(*m),
{
    let v1 = i64_to_chars(m.total_tokens);
    emit_line(out, "total_tokens", &v1);
    let v2 = i64_to_chars(m.prompt_tokens);
    emit_line(out, "prompt_tokens", &v2);
    let v3 = i64_to_chars(m.completion_tokens);
    emit_line(out, "completion_tokens", &v3);
    let v4 = i64_to_chars(m.elapsed_ms);
    emit_line(out, "elapsed_ms", &v4);
    let v5 = i64_to_chars(m.task_count);
    emit_line(out, "task_count", &v5);
    let v6 = i64_to_chars(m.tasks_completed);
    emit_line(out, "tasks_completed", &v6);
    let v7 = i64_to_chars(m.tasks_failed);
    emit_line(out, "tasks_failed", &v7);
    proof {
        assert(out@ =~= old(out)@ + spec_encode_goal_metrics(*m));
    }
}

/// Read a goal record back from text; a malformed record yields
/// nothing.
pub fn decode_goal(s: &Vec<char>) -> (r: Option<Goal>)
    ensures
        match r {
            Some(g) => spec_decode_goal(s@) == Some(g@),
            None => spec_decode_goal(s@) is None,
        },
{
    let (id_chars, p1) = match parse_line_exec(s, 0, "id") {
        Some(x) => x,
        None => {
            return None;
        },
    };
    let (parent_chars, p2) = match parse_line_exec(s, p1, "parent_id") {
        Some((v, p)) => (Some(v), p),
        None => (None, p1),
    };
    let (desc_chars, p3) = match parse_line_exec(s, p2, "description") {
        Some(x) => x,
        None => {
            return None;
        },
    };
    let (state_chars, p4) = match parse_line_exec(s, p3, "state") {
        Some(x) => x,
        None => {
            return None;
        },
    };
    let state = if chars_eq_str(&state_chars, "pending") {
        GoalState::Pending
    } else if chars_eq_str(&state_chars, "in_progress") {
        GoalState::InProgress
    } else if chars_eq_str(&state_chars, "completed") {
        GoalState::Completed
    } else if chars_eq_str(&state_chars, "failed") {
        GoalState::Failed
    } else {
        proof {
            assert(goal_state_of_token(state_chars@) is None);
        }
        return None;
    };
    proof {
        assert(goal_state_of_token(state_chars@) == Some(state));
    }
    let (created_at, p5) = match parse_i64_line_exec(s, p4, "created_at") {
        Some(x) => x,
        None => {
            return None;
        },
    };
    let (updated_at, p6) = match parse_i64_line_exec(s, p5, "updated_at") {
        Some(x) => x,
        None => {
            return None;
        },
    };
    let (completed_at, p7) = match parse_i64_line_exec(s, p6, "completed_at") {
        Some((t, p)) => (Some(t), p),
        None => (None, p6),
    };
    let (m1, q1) = match parse_i64_line_exec(s, p7, "total_tokens") {
        Some(x) => x,
        None => {
            return None;
        },
    };
    let (m2, q2) = match parse_i64_line_exec(s, q1, "prompt_tokens") {
        Some(x) => x,
        None => {
            return None;
        },
    };
    let (m3, q3) = match parse_i64_line_exec(s, q2, "completion_tokens") {
        Some(x) => x,
        None => {
            return None;
        },
    };
    let (m4, q4) = match parse_i64_line_exec(s, q3, "elapsed_ms") {
        Some(x) => x,
        None => {
            return None;
        },
    };
    let (m5, q5) = match parse_i64_line_exec(s, q4, "task_count") {
        Some(x) => x,
        None => {
            return None;
        },
    };
    let (m6, q6) = match parse_i64_line_exec(s, q5, "tasks_completed") {
        Some(x) => x,
        None => {
            return None;
        },
    };
    let (m7, q7) = match parse_i64_line_exec(s, q6, "tasks_failed") {
        Some(x) => x,
        None => {
            return None;
        },
    };
    if q7 != s.len() {
        return None;
    }
    let parent_id = match parent_chars {
        Some(v) => Some(crate::text::chars_to_string(&v)),
        None => None,
    };
    let g = Goal {
        id: crate::text::chars_to_string(&id_chars),
        parent_id,
        description: crate::text::chars_to_string(&desc_chars),
        state,
        created_at,
        updated_at,
        completed_at,
        metrics: Metrics {
            total_tokens: m1,
            prompt_tokens: m2,
            completion_tokens: m3,
            elapsed_ms: m4,
            task_count: m5,
            tasks_completed: m6,
            tasks_failed: m7,
        },
    };
    Some(g)
}

// ---------------------------------------------------------------------
// Lists: a counted run of lines with one key, one line per element; a
// comment takes three lines. The count stands on its own line before the
// run.
// ---------------------------------------------------------------------

/// The text of a run of string elements under one key.
pub open spec fn encode_str_list(key: Seq<char>, items: Seq<Seq<char>>) -> Seq<char>
    decreases items.len(),
{
    if items.len() == 0 {
        Seq::empty()
    } else {
        line(key, items[0]) + encode_str_list(key, items.drop_first())
    }
}

/// Parse a run of `n` string elements under one key.
pub open spec fn parse_str_list(s: Seq<char>, pos: int, key: Seq<char>, n: int) -> Option<
    (Seq<Seq<char>>, int),
>
    decreases n,
    when n >= 0
{
    if n <= 0 {
        Some((Seq::empty(), pos))
    } else {
        match parse_line(s, pos, key) {
            None => None,
            Some((v, p)) => match parse_str_list(s, p, key, n - 1) {
                None => None,
                Some((vs, p2)) => Some((seq![v] + vs, p2)),
            },
        }
    }
}

/// A run of elements reads back exactly and consumes exactly its text.
proof fn lemma_str_list_round(
    s: Seq<char>,
    pos: int,
    key: Seq<char>,
    items: Seq<Seq<char>>,
    rest: Seq<char>,
)
    requires
        key_ok(key),
        0 <= pos <= s.len(),
        s.skip(pos) == encode_str_list(key, items) + rest,
    ensures
        parse_str_list(s, pos, key, items.len() as int) == Some(
            (items, pos + encode_str_list(key, items).len()),
        ),
        pos + encode_str_list(key, items).len() + rest.len() == s.len(),
        s.skip(pos + encode_str_list(key, items).len() as int) == rest,
    decreases items.len(),
{
    if items.len() == 0 {
        assert(encode_str_list(key, items) =~= Seq::<char>::empty());
        assert(s.skip(pos) =~= rest);
        assert(items =~= Seq::<Seq<char>>::empty());
        assert(s.skip(pos).len() == s.len() - pos);
    } else {
        let head = items[0];
        let tail = items.drop_first();
        let tail_text = encode_str_list(key, tail);
        assert(s.skip(pos) =~= line(key, head) + (tail_text + rest));
        lemma_step(s, pos, key, head, tail_text + rest);
        let p1 = pos + line(key, head).len() as int;
        assert(s.skip(p1) == tail_text + rest);
        lemma_str_list_round(s, p1, key, tail, rest);
        assert(seq![head] + tail =~= items);
        assert(encode_str_list(key, items).len() == line(key, head).len() + tail_text.len());
    }
}

/// The text of a run of comments: three lines per comment.
pub open spec fn encode_comments(items: Seq<CommentView>) -> Seq<char>
    decreases items.len(),
{
    if items.len() == 0 {
        Seq::empty()
    } else {
        line("comment_id"@, items[0].id) + (line("comment_text"@, items[0].text) + (line(
            "comment_created_at"@,
            i64_chars(items[0].created_at as i64),
        ) + encode_comments(items.drop_first())))
    }
}

/// Parse a run of `n` comments.
pub open spec fn parse_comments(s: Seq<char>, pos: int, n: int) -> Option<(Seq<CommentView>, int)>
    decreases n,
    when n >= 0
{
    if n <= 0 {
        Some((Seq::empty(), pos))
    } else {
        match parse_line(s, pos, "comment_id"@) {
            None => None,
            Some((id, p1)) => match parse_line(s, p1, "comment_text"@) {
                None => None,
                Some((text, p2)) => match parse_i64_line(s, p2, "comment_created_at"@) {
                    None => None,
                    Some((t, p3)) => match parse_comments(s, p3, n - 1) {
                        None => None,
                        Some((cs, p4)) => Some(
                            (seq![CommentView { id, text, created_at: t as int }] + cs, p4),
                        ),
                    },
                },
            },
        }
    }
}

/// Whether every comment's timestamp lies in the 64-bit range.
pub open spec fn comments_fit(items: Seq<CommentView>) -> bool {
    forall|k: int| 0 <= k < items.len() ==> time_fits(#[trigger] items[k].created_at)
}

/// The comment keys are well formed.
proof fn lemma_comment_keys()
    ensures
        key_ok("comment_id"@),
        key_ok("comment_text"@),
        key_ok("comment_created_at"@),
{
    reveal_strlit("comment_id");
    reveal_strlit("comment_text");
    reveal_strlit("comment_created_at");
    assert("comment_id"@.len() == 10);
    assert("comment_text"@.len() == 12);
    assert("comment_created_at"@.len() == 18);
}

/// A run of comments reads back exactly and consumes exactly its text.
proof fn lemma_comments_round(s: Seq<char>, pos: int, items: Seq<CommentView>, rest: Seq<char>)
    requires
        comments_fit(items),
        0 <= pos <= s.len(),
        s.skip(pos) == encode_comments(items) + rest,
    ensures
        parse_comments(s, pos, items.len() as int) == Some(
            (items, pos + encode_comments(items).len()),
        ),
        pos + encode_comments(items).len() + rest.len() == s.len(),
        s.skip(pos + encode_comments(items).len() as int) == rest,
    decreases items.len(),
{
    lemma_comment_keys();
    if items.len() == 0 {
        assert(encode_comments(items) =~= Seq::<char>::empty());
        assert(s.skip(pos) =~= rest);
        assert(items =~= Seq::<CommentView>::empty());
        assert(s.skip(pos).len() == s.len() - pos);
    } else {
        let c = items[0];
        let tail = items.drop_first();
        let tail_text = encode_comments(tail);
        let l1 = line("comment_id"@, c.id);
        let l2 = line("comment_text"@, c.text);
        let l3 = line("comment_created_at"@, i64_chars(c.created_at as i64));
        assert(s.skip(pos) =~= l1 + (l2 + (l3 + (tail_text + rest))));
        lemma_step(s, pos, "comment_id"@, c.id, l2 + (l3 + (tail_text + rest)));
        let p1 = pos + l1.len() as int;
        lemma_step(s, p1, "comment_text"@, c.text, l3 + (tail_text + rest));
        let p2 = p1 + l2.len() as int;
        lemma_step(s, p2, "comment_created_at"@, i64_chars(c.created_at as i64), tail_text + rest);
        lemma_parse_i64_chars(c.created_at as i64);
        let p3 = p2 + l3.len() as int;
        assert(s.skip(p3) == tail_text + rest);
        lemma_comments_round(s, p3, tail, rest);
        assert(seq![CommentView { id: c.id, text: c.text, created_at: (c.created_at as i64) as int }]
            + tail =~= items);
        assert(encode_comments(items).len() == l1.len() + l2.len() + l3.len() + tail_text.len());
    }
}

/// Append a run of string elements under one key.
fn emit_str_list(out: &mut Vec<char>, key: &str, items: &Vec<String>)
    ensures
        final(out)@ == old(out)@ + encode_str_list(key@, crate::outcome::strings_view(items@)),
{
    let ghost iv = crate::outcome::strings_view(items@);
    let mut i: usize = 0;
    proof {
        assert(encode_str_list(key@, iv.take(0)) =~= Seq::<char>::empty());
        assert(out@ =~= old(out)@ + encode_str_list(key@, iv.take(0)));
    }
    while i < items.len()
        invariant
            iv == crate::outcome::strings_view(items@),
            iv.len() == items@.len(),
            i <= items@.len(),
            out@ == old(out)@ + encode_str_list(key@, iv.take(i as int)),
        decreases items.len() - i,
    {
        let v = crate::text::str_to_chars(items[i].as_str());
        emit_line(out, key, &v);
        proof {
            lemma_encode_str_list_snoc(key@, iv.take(i as int + 1));
            assert(iv.take(i as int + 1).drop_last() =~= iv.take(i as int));
            assert(iv.take(i as int + 1).last() == iv[i as int]);
            assert(v@ == iv[i as int]);
            assert(out@ =~= old(out)@ + encode_str_list(key@, iv.take(i as int + 1)));
        }
        i = i + 1;
    }
    proof {
        assert(iv.take(iv.len() as int) =~= iv);
    }
}

/// A run of elements grows at its end.
proof fn lemma_encode_str_list_snoc(key: Seq<char>, items: Seq<Seq<char>>)
    requires
        items.len() > 0,
    ensures
        encode_str_list(key, items) == encode_str_list(key, items.drop_last()) + line(
            key,
            items.last(),
        ),
    decreases items.len(),
{
    if items.len() == 1 {
        assert(items.drop_first() =~= Seq::<Seq<char>>::empty());
        assert(items.drop_last() =~= Seq::<Seq<char>>::empty());
        assert(encode_str_list(key, items) =~= encode_str_list(key, items.drop_last()) + line(
            key,
            items.last(),
        ));
    } else {
        let tail = items.drop_first();
        lemma_encode_str_list_snoc(key, tail);
        assert(tail.drop_last() =~= items.drop_last().drop_first());
        assert(tail.last() == items.last());
        assert(items.drop_last()[0] == items[0]);
        assert(encode_str_list(key, items.drop_last()) == line(key, items[0]) + encode_str_list(
            key,
            items.drop_last().drop_first(),
        ));
        assert(encode_str_list(key, items) =~= encode_str_list(key, items.drop_last()) + line(
            key,
            items.last(),
        ));
    }
}

/// Parse a run of `n` string elements under one key.
fn parse_str_list_exec(s: &Vec<char>, pos: usize, key: &str, n: u64) -> (r: Option<
    (Vec<String>, usize),
>)
    ensures
        match r {
            Some(v) => parse_str_list(s@, pos as int, key@, n as int) == Some(
                (crate::outcome::strings_view(v.0@), v.1 as int),
            ),
            None => parse_str_list(s@, pos as int, key@, n as int) is None,
        },
{
    let mut acc: Vec<String> = Vec::new();
    let mut cur: usize = pos;
    let mut i: u64 = 0;
    while i < n
        invariant
            i <= n,
            forall|vs: Seq<Seq<char>>, p: int|
                parse_str_list(s@, cur as int, key@, n - i) == Some((vs, p)) ==> parse_str_list(
                    s@,
                    pos as int,
                    key@,
                    n as int,
                ) == Some((crate::outcome::strings_view(acc@) + vs, p)),
            (parse_str_list(s@, cur as int, key@, n - i) is None) ==> (parse_str_list(
                s@,
                pos as int,
                key@,
                n as int,
            ) is None),
        decreases n - i,
    {
        let ghost acc0 = crate::outcome::strings_view(acc@);
        match parse_line_exec(s, cur, key) {
            None => {
                proof {
                    assert(parse_str_list(s@, cur as int, key@, n - i) is None);
                }
                return None;
            },
            Some((v, p)) => {
                acc.push(crate::text::chars_to_string(&v));
                proof {
                    let accv = crate::outcome::strings_view(acc@);
                    assert(accv =~= acc0.push(v@));
                    assert forall|vs: Seq<Seq<char>>, q: int|
                        parse_str_list(s@, p as int, key@, n - i - 1) == Some((vs, q))
                            implies parse_str_list(s@, pos as int, key@, n as int) == Some(
                        (accv + vs, q),
                    ) by {
                        assert(parse_str_list(s@, cur as int, key@, n - i) == Some(
                            (seq![v@] + vs, q),
                        ));
                        assert(acc0 + (seq![v@] + vs) =~= accv + vs);
                    }
                    assert((parse_str_list(s@, p as int, key@, n - i - 1) is None) ==> (
                    parse_str_list(s@, cur as int, key@, n - i) is None));
                }
                cur = p;
            },
        }
        i = i + 1;
    }
    proof {
        assert(parse_str_list(s@, cur as int, key@, 0) == Some(
            (Seq::<Seq<char>>::empty(), cur as int),
        ));
        assert(crate::outcome::strings_view(acc@) + Seq::<Seq<char>>::empty() =~= crate::outcome::strings_view(acc@));
    }
    Some((acc, cur))
}

/// Append a run of comments, three lines each.
fn emit_comments(out: &mut Vec<char>, items: &Vec<Comment>)
    ensures
        final(out)@ == old(out)@ + encode_comments(crate::comment::comments_view(items@)),
{
    let ghost iv = crate::comment::comments_view(items@);
    let mut i: usize = 0;
    proof {
        assert(encode_comments(iv.take(0)) =~= Seq::<char>::empty());
        assert(out@ =~= old(out)@ + encode_comments(iv.take(0)));
    }
    while i < items.len()
        invariant
            iv == crate::comment::comments_view(items@),
            iv.len() == items@.len(),
            i <= items@.len(),
            out@ == old(out)@ + encode_comments(iv.take(i as int)),
        decreases items.len() - i,
    {
        let v_id = crate::text::str_to_chars(items[i].id.as_str());
        emit_line(out, "comment_id", &v_id);
        let v_text = crate::text::str_to_chars(items[i].text.as_str());
        emit_line(out, "comment_text", &v_text);
        let v_time = i64_to_chars(items[i].created_at);
        emit_line(out, "comment_created_at", &v_time);
        proof {
            lemma_encode_comments_snoc(iv.take(i as int + 1));
            assert(iv.take(i as int + 1).drop_last() =~= iv.take(i as int));
            assert(iv.take(i as int + 1).last() == iv[i as int]);
            assert(out@ =~= old(out)@ + encode_comments(iv.take(i as int + 1)));
        }
        i = i + 1;
    }
    proof {
        assert(iv.take(iv.len() as int) =~= iv);
    }
}

/// A run of comments grows at its end.
proof fn lemma_encode_comments_snoc(items: Seq<CommentView>)
    requires
        items.len() > 0,
    ensures
        encode_comments(items) == encode_comments(items.drop_last()) + (line(
            "comment_id"@,
            items.last().id,
        ) + (line("comment_text"@, items.last().text) + line(
            "comment_created_at"@,
            i64_chars(items.last().created_at as i64),
        ))),
    decreases items.len(),
{
    if items.len() == 1 {
        assert(items.drop_first() =~= Seq::<CommentView>::empty());
        assert(items.drop_last() =~= Seq::<CommentView>::empty());
        assert(encode_comments(items) =~= encode_comments(items.drop_last()) + (line(
            "comment_id"@,
            items.last().id,
        ) + (line("comment_text"@, items.last().text) + line(
            "comment_created_at"@,
            i64_chars(items.last().created_at as i64),
        ))));
    } else {
        let tail = items.drop_first();
        lemma_encode_comments_snoc(tail);
        assert(tail.drop_last() =~= items.drop_last().drop_first());
        assert(tail.last() == items.last());
        assert(items.drop_last()[0] == items[0]);
        assert(encode_comments(items.drop_last()) == line("comment_id"@, items[0].id) + (line(
            "comment_text"@,
            items[0].text,
        ) + (line("comment_created_at"@, i64_chars(items[0].created_at as i64)) + encode_comments(
            items.drop_last().drop_first(),
        ))));
        assert(encode_comments(items) =~= encode_comments(items.drop_last()) + (line(
            "comment_id"@,
            items.last().id,
        ) + (line("comment_text"@, items.last().text) + line(
            "comment_created_at"@,
            i64_chars(items.last().created_at as i64),
        ))));
    }
}

/// Parse a run of `n` comments.
fn parse_comments_exec(s: &Vec<char>, pos: usize, n: u64) -> (r: Option<(Vec<Comment>, usize)>)
    ensures
        match r {
            Some(v) => parse_comments(s@, pos as int, n as int) == Some(
                (crate::comment::comments_view(v.0@), v.1 as int),
            ),
            None => parse_comments(s@, pos as int, n as int) is None,
        },
{
    let mut acc: Vec<Comment> = Vec::new();
    let mut cur: usize = pos;
    let mut i: u64 = 0;
    while i < n
        invariant
            i <= n,
            forall|vs: Seq<CommentView>, p: int|
                parse_comments(s@, cur as int, n - i) == Some((vs, p)) ==> parse_comments(
                    s@,
                    pos as int,
                    n as int,
                ) == Some((crate::comment::comments_view(acc@) + vs, p)),
            (parse_comments(s@, cur as int, n - i) is None) ==> (parse_comments(
                s@,
                pos as int,
                n as int,
            ) is None),
        decreases n - i,
    {
        let ghost acc0 = crate::comment::comments_view(acc@);
        let (id_chars, p1) = match parse_line_exec(s, cur, "comment_id") {
            Some(x) => x,
            None => {
                proof {
                    assert(parse_comments(s@, cur as int, n - i) is None);
                }
                return None;
            },
        };
        let (text_chars, p2) = match parse_line_exec(s, p1, "comment_text") {
            Some(x) => x,
            None => {
                proof {
                    assert(parse_comments(s@, cur as int, n - i) is None);
                }
                return None;
            },
        };
        let (t, p3) = match parse_i64_line_exec(s, p2, "comment_created_at") {
            Some(x) => x,
            None => {
                proof {
                    assert(parse_comments(s@, cur as int, n - i) is None);
                }
                return None;
            },
        };
        let c = Comment {
            id: crate::text::chars_to_string(&id_chars),
            text: crate::text::chars_to_string(&text_chars),
            created_at: t,
        };
        acc.push(c);
        proof {
            let accv = crate::comment::comments_view(acc@);
            let cv = CommentView { id: id_chars@, text: text_chars@, created_at: t as int };
            assert(accv =~= acc0.push(cv));
            assert forall|vs: Seq<CommentView>, q: int|
                parse_comments(s@, p3 as int, n - i - 1) == Some((vs, q)) implies parse_comments(
                s@,
                pos as int,
                n as int,
            ) == Some((accv + vs, q)) by {
                assert(parse_comments(s@, cur as int, n - i) == Some((seq![cv] + vs, q)));
                assert(acc0 + (seq![cv] + vs) =~= accv + vs);
            }
            assert((parse_comments(s@, p3 as int, n - i - 1) is None) ==> (parse_comments(
                s@,
                cur as int,
                n - i,
            ) is None));
        }
        cur = p3;
        i = i + 1;
    }
    proof {
        assert(parse_comments(s@, cur as int, 0) == Some((Seq::<CommentView>::empty(), cur as int)));
        assert(crate::comment::comments_view(acc@) + Seq::<CommentView>::empty()
            =~= crate::comment::comments_view(acc@));
    }
    Some((acc, cur))
}

// ---------------------------------------------------------------------
// Task records.
// ---------------------------------------------------------------------

/// Whether a task's timestamps and list lengths lie in the 64-bit range
/// a record file stores; every task built by the library does, up to the
/// machine limit on list lengths.
pub open spec fn task_fits(t: TaskView) -> bool {
    &&& time_fits(t.created_at)
    &&& time_fits(t.updated_at)
    &&& match t.completed_at {
        Some(x) => time_fits(x),
        None => true,
    }
    &&& t.blocked_by.len() <= i64::MAX
    &&& match t.result {
        Some(o) => o.artifacts.len() <= i64::MAX,
        None => true,
    }
    &&& t.comments.len() <= i64::MAX
    &&& comments_fit(t.comments)
}

/// The task state a record token stands for.
pub open spec fn task_state_of_token(v: Seq<char>) -> Option<TaskState> {
    if v == spec_task_state_token(TaskState::Pending) {
        Some(TaskState::Pending)
    } else if v == spec_task_state_token(TaskState::Blocked) {
        Some(TaskState::Blocked)
    } else if v == spec_task_state_token(TaskState::InProgress) {
        Some(TaskState::InProgress)
    } else if v == spec_task_state_token(TaskState::Verifying) {
        Some(TaskState::Verifying)
    } else if v == spec_task_state_token(TaskState::Completed) {
        Some(TaskState::Completed)
    } else if v == spec_task_state_token(TaskState::Failed) {
        Some(TaskState::Failed)
    } else {
        None
    }
}

/// The contract lines of a task record: all three or none.
pub open spec fn spec_encode_contract(c: Option<ContractView>) -> Seq<char> {
    match c {
        Some(cv) => line("receives"@, cv.receives) + (line("produces"@, cv.produces) + line(
            "verify"@,
            cv.verify,
        )),
        None => Seq::empty(),
    }
}

/// The blocker lines of a task record: the count, then one line each.
pub open spec fn spec_encode_blocked(bids: Seq<Seq<char>>) -> Seq<char> {
    line("blocked_by_len"@, i64_chars(bids.len() as i64)) + encode_str_list("blocked_by"@, bids)
}

/// The result lines of a task record, present only when the task has
/// completed: the summary, then the artifact count and one line each.
pub open spec fn spec_encode_result(r: Option<OutcomeView>) -> Seq<char> {
    match r {
        Some(o) => line("summary"@, o.summary) + (line(
            "artifacts_len"@,
            i64_chars(o.artifacts.len() as i64),
        ) + encode_str_list("artifact"@, o.artifacts)),
        None => Seq::empty(),
    }
}

/// The three metric lines of a task record.
pub open spec fn spec_encode_task_metrics(m: TaskMetrics) -> Seq<char> {
    line("tokens"@, i64_chars(m.tokens)) + (line("elapsed_ms"@, i64_chars(m.elapsed_ms)) + line(
        "retry_count"@,
        i64_chars(m.retry_count),
    ))
}

/// The comment lines of a task record: the count, then three lines each.
pub open spec fn spec_encode_task_comments(cs: Seq<CommentView>) -> Seq<char> {
    line("comments_len"@, i64_chars(cs.len() as i64)) + encode_comments(cs)
}

/// The text of a task record.
pub open spec fn spec_encode_task(t: TaskView) -> Seq<char> {
    line("id"@, t.id) + (line("goal_id"@, t.goal_id) + (line("description"@, t.description) + (
    spec_encode_contract(t.contract) + (line("state"@, spec_task_state_token(t.state)) + (
    spec_encode_blocked(t.blocked_by) + (spec_encode_result(t.result) + (line(
        "created_at"@,
        i64_chars(t.created_at as i64),
    ) + (line("updated_at"@, i64_chars(t.updated_at as i64)) + ((match t.completed_at {
        Some(x) => line("completed_at"@, i64_chars(x as i64)),
        None => Seq::<char>::empty(),
    }) + (spec_encode_task_metrics(t.metrics) + spec_encode_task_comments(t.comments)))))))))))
}

/// The contract a record's optional contract lines stand for: either all
/// three lines or none.
pub open spec fn spec_decode_contract(s: Seq<char>, pos: int) -> Option<
    (Option<ContractView>, int),
> {
    match parse_line(s, pos, "receives"@) {
        None => Some((None, pos)),
        Some((receives, p1)) => match parse_line(s, p1, "produces"@) {
            None => None,
            Some((produces, p2)) => match parse_line(s, p2, "verify"@) {
                None => None,
                Some((verify, p3)) => Some(
                    (Some(ContractView { receives, produces, verify }), p3),
                ),
            },
        },
    }
}

/// The blockers a record's counted run stands for.
pub open spec fn spec_decode_blocked(s: Seq<char>, pos: int) -> Option<(Seq<Seq<char>>, int)> {
    match parse_i64_line(s, pos, "blocked_by_len"@) {
        None => None,
        Some((n, p1)) => if n < 0 {
            None
        } else {
            parse_str_list(s, p1, "blocked_by"@, n as int)
        },
    }
}

/// The result a record's optional result lines stand for.
pub open spec fn spec_decode_result(s: Seq<char>, pos: int) -> Option<(Option<OutcomeView>, int)> {
    match parse_line(s, pos, "summary"@) {
        None => Some((None, pos)),
        Some((summary, p1)) => match parse_i64_line(s, p1, "artifacts_len"@) {
            None => None,
            Some((n, p2)) => if n < 0 {
                None
            } else {
                match parse_str_list(s, p2, "artifact"@, n as int) {
                    None => None,
                    Some((artifacts, p3)) => Some((Some(OutcomeView { summary, artifacts }), p3)),
                }
            },
        },
    }
}

/// The three metric lines of a task record.
pub open spec fn spec_decode_task_metrics(s: Seq<char>, pos: int) -> Option<(TaskMetrics, int)> {
    match parse_i64_line(s, pos, "tokens"@) {
        None => None,
        Some((tokens, p1)) => match parse_i64_line(s, p1, "elapsed_ms"@) {
            None => None,
            Some((elapsed_ms, p2)) => match parse_i64_line(s, p2, "retry_count"@) {
                None => None,
                Some((retry_count, p3)) => Some(
                    (TaskMetrics { tokens, elapsed_ms, retry_count }, p3),
                ),
            },
        },
    }
}

/// The comments a record's counted run stands for.
pub open spec fn spec_decode_task_comments(s: Seq<char>, pos: int) -> Option<
    (Seq<CommentView>, int),
> {
    match parse_i64_line(s, pos, "comments_len"@) {
        None => None,
        Some((n, p1)) => if n < 0 {
            None
        } else {
            parse_comments(s, p1, n as int)
        },
    }
}

/// The trailing fields of a task record, from the creation time on,
/// assembled with the already-parsed leading fields.
pub open spec fn spec_decode_task_tail(
    s: Seq<char>,
    pos: int,
    id: Seq<char>,
    goal_id: Seq<char>,
    description: Seq<char>,
    contract: Option<ContractView>,
    state: TaskState,
    blocked_by: Seq<Seq<char>>,
    result: Option<OutcomeView>,
) -> Option<TaskView> {
    match parse_i64_line(s, pos, "created_at"@) {
        None => None,
        Some((created_at, p8)) => match parse_i64_line(s, p8, "updated_at"@) {
            None => None,
            Some((updated_at, p9)) => {
                let (completed_at, p10) = match parse_i64_line(s, p9, "completed_at"@) {
                    Some((x, p)) => (Some(x as int), p),
                    None => (None, p9),
                };
                match spec_decode_task_metrics(s, p10) {
                    None => None,
                    Some((metrics, p11)) => match spec_decode_task_comments(s, p11) {
                        None => None,
                        Some((comments, p12)) => if p12 == s.len() {
                            Some(
                                TaskView {
                                    id,
                                    goal_id,
                                    description,
                                    contract,
                                    state,
                                    blocked_by,
                                    result,
                                    created_at: created_at as int,
                                    updated_at: updated_at as int,
                                    completed_at,
                                    metrics,
                                    comments,
                                },
                            )
                        } else {
                            None
                        },
                    },
                }
            },
        },
    }
}

/// The task record a text stands for, if the whole text is one
/// well-formed task record.
pub open spec fn spec_decode_task(s: Seq<char>) -> Option<TaskView> {
    match parse_line(s, 0, "id"@) {
        None => None,
        Some((id, p1)) => match parse_line(s, p1, "goal_id"@) {
            None => None,
            Some((goal_id, p2)) => match parse_line(s, p2, "description"@) {
                None => None,
                Some((description, p3)) => match spec_decode_contract(s, p3) {
                    None => None,
                    Some((contract, p4)) => match parse_line(s, p4, "state"@) {
                        None => None,
                        Some((sv, p5)) => match task_state_of_token(sv) {
                            None => None,
                            Some(state) => match spec_decode_blocked(s, p5) {
                                None => None,
                                Some((blocked_by, p6)) => match spec_decode_result(s, p6) {
                                    None => None,
                                    Some((result, p7)) => spec_decode_task_tail(
                                        s,
                                        p7,
                                        id,
                                        goal_id,
                                        description,
                                        contract,
                                        state,
                                        blocked_by,
                                        result,
                                    ),
                                },
                            },
                        },
                    },
                },
            },
        },
    }
}

/// The keys of a task record are well formed and pairwise usable.
proof fn lemma_task_keys()
    ensures
        key_ok("id"@),
        key_ok("goal_id"@),
        key_ok("description"@),
        key_ok("receives"@),
        key_ok("produces"@),
        key_ok("verify"@),
        key_ok("state"@),
        key_ok("blocked_by_len"@),
        key_ok("blocked_by"@),
        key_ok("summary"@),
        key_ok("artifacts_len"@),
        key_ok("artifact"@),
        key_ok("created_at"@),
        key_ok("updated_at"@),
        key_ok("completed_at"@),
        key_ok("tokens"@),
        key_ok("elapsed_ms"@),
        key_ok("retry_count"@),
        key_ok("comments_len"@),
        "receives"@ != "state"@,
        "summary"@ != "created_at"@,
        "completed_at"@ != "tokens"@,
{
    reveal_strlit("id");
    reveal_strlit("goal_id");
    reveal_strlit("description");
    reveal_strlit("receives");
    reveal_strlit("produces");
    reveal_strlit("verify");
    reveal_strlit("state");
    reveal_strlit("blocked_by_len");
    reveal_strlit("blocked_by");
    reveal_strlit("summary");
    reveal_strlit("artifacts_len");
    reveal_strlit("artifact");
    reveal_strlit("created_at");
    reveal_strlit("updated_at");
    reveal_strlit("completed_at");
    reveal_strlit("tokens");
    reveal_strlit("elapsed_ms");
    reveal_strlit("retry_count");
    reveal_strlit("comments_len");
    assert("id"@.len() == 2);
    assert("goal_id"@.len() == 7);
    assert("description"@.len() == 11);
    assert("receives"@.len() == 8);
    assert("produces"@.len() == 8);
    assert("verify"@.len() == 6);
    assert("state"@.len() == 5);
    assert("blocked_by_len"@.len() == 14);
    assert("blocked_by"@.len() == 10);
    assert("summary"@.len() == 7);
    assert("artifacts_len"@.len() == 13);
    assert("artifact"@.len() == 8);
    assert("created_at"@.len() == 10);
    assert("updated_at"@.len() == 10);
    assert("completed_at"@.len() == 12);
    assert("tokens"@.len() == 6);
    assert("elapsed_ms"@.len() == 10);
    assert("retry_count"@.len() == 11);
    assert("comments_len"@.len() == 12);
    assert("receives"@[0] == 'r' && "state"@[0] == 's');
    assert("summary"@[0] == 's' && "created_at"@[0] == 'c');
    assert("completed_at"@[0] == 'c' && "tokens"@[0] == 't');
}

/// A state's own token reads back as that state.
proof fn proof_task_state_token(st: TaskState)
    ensures
        task_state_of_token(spec_task_state_token(st)) == Some(st),
{
    crate::state::lemma_task_state_token_injective(st, TaskState::Pending);
    crate::state::lemma_task_state_token_injective(st, TaskState::Blocked);
    crate::state::lemma_task_state_token_injective(st, TaskState::InProgress);
    crate::state::lemma_task_state_token_injective(st, TaskState::Verifying);
    crate::state::lemma_task_state_token_injective(st, TaskState::Completed);
    crate::state::lemma_task_state_token_injective(st, TaskState::Failed);
}

/// The contract lines read back exactly. The text after the contract
/// part starts with the state line, whose key differs from `receives`,
/// so an absent contract is recognized.
proof fn lemma_contract_round(
    s: Seq<char>,
    pos: int,
    c: Option<ContractView>,
    state_tok: Seq<char>,
    rest: Seq<char>,
)
    requires
        0 <= pos <= s.len(),
        s.skip(pos) == spec_encode_contract(c) + (line("state"@, state_tok) + rest),
    ensures
        spec_decode_contract(s, pos) == Some((c, pos + spec_encode_contract(c).len())),
        pos + spec_encode_contract(c).len() <= s.len(),
        s.skip(pos + spec_encode_contract(c).len() as int) == line("state"@, state_tok) + rest,
    decreases s.len() - pos,
{
    lemma_task_keys();
    match c {
        Some(cv) => {
            let l1 = line("receives"@, cv.receives);
            let l2 = line("produces"@, cv.produces);
            let l3 = line("verify"@, cv.verify);
            let after = line("state"@, state_tok) + rest;
            assert(s.skip(pos) =~= l1 + (l2 + (l3 + after)));
            lemma_step(s, pos, "receives"@, cv.receives, l2 + (l3 + after));
            let p1 = pos + l1.len() as int;
            lemma_step(s, p1, "produces"@, cv.produces, l3 + after);
            let p2 = p1 + l2.len() as int;
            lemma_step(s, p2, "verify"@, cv.verify, after);
            let p3 = p2 + l3.len() as int;
            assert(spec_encode_contract(c).len() == l1.len() + l2.len() + l3.len());
        },
        None => {
            assert(spec_encode_contract(c) =~= Seq::<char>::empty());
            assert(s.skip(pos) =~= line("state"@, state_tok) + rest);
            lemma_step_mismatch(s, pos, "receives"@, "state"@, state_tok, rest);
        },
    }
}

/// The blocker lines read back exactly.
proof fn lemma_blocked_round(s: Seq<char>, pos: int, bids: Seq<Seq<char>>, rest: Seq<char>)
    requires
        bids.len() <= i64::MAX,
        0 <= pos <= s.len(),
        s.skip(pos) == spec_encode_blocked(bids) + rest,
    ensures
        spec_decode_blocked(s, pos) == Some((bids, pos + spec_encode_blocked(bids).len())),
        pos + spec_encode_blocked(bids).len() <= s.len(),
        s.skip(pos + spec_encode_blocked(bids).len() as int) == rest,
{
    lemma_task_keys();
    let n = bids.len() as i64;
    let l0 = line("blocked_by_len"@, i64_chars(n));
    let run = encode_str_list("blocked_by"@, bids);
    assert(s.skip(pos) =~= l0 + (run + rest));
    lemma_step(s, pos, "blocked_by_len"@, i64_chars(n), run + rest);
    lemma_parse_i64_chars(n);
    let p1 = pos + l0.len() as int;
    lemma_str_list_round(s, p1, "blocked_by"@, bids, rest);
    assert(spec_encode_blocked(bids).len() == l0.len() + run.len());
}

/// The result lines read back exactly. The text after the result part
/// starts with the creation-time line, whose key differs from `summary`,
/// so an absent result is recognized.
proof fn lemma_result_round(
    s: Seq<char>,
    pos: int,
    r: Option<OutcomeView>,
    created_val: Seq<char>,
    rest: Seq<char>,
)
    requires
        match r {
            Some(o) => o.artifacts.len() <= i64::MAX,
            None => true,
        },
        0 <= pos <= s.len(),
        s.skip(pos) == spec_encode_result(r) + (line("created_at"@, created_val) + rest),
    ensures
        spec_decode_result(s, pos) == Some((r, pos + spec_encode_result(r).len())),
        pos + spec_encode_result(r).len() <= s.len(),
        s.skip(pos + spec_encode_result(r).len() as int) == line("created_at"@, created_val)
            + rest,
{
    lemma_task_keys();
    match r {
        Some(o) => {
            let n = o.artifacts.len() as i64;
            let l1 = line("summary"@, o.summary);
            let l2 = line("artifacts_len"@, i64_chars(n));
            let run = encode_str_list("artifact"@, o.artifacts);
            let after = line("created_at"@, created_val) + rest;
            assert(s.skip(pos) =~= l1 + (l2 + (run + after)));
            lemma_step(s, pos, "summary"@, o.summary, l2 + (run + after));
            let p1 = pos + l1.len() as int;
            lemma_step(s, p1, "artifacts_len"@, i64_chars(n), run + after);
            lemma_parse_i64_chars(n);
            let p2 = p1 + l2.len() as int;
            lemma_str_list_round(s, p2, "artifact"@, o.artifacts, after);
            assert(spec_encode_result(r).len() == l1.len() + l2.len() + run.len());
        },
        None => {
            assert(spec_encode_result(r) =~= Seq::<char>::empty());
            assert(s.skip(pos) =~= line("created_at"@, created_val) + rest);
            lemma_step_mismatch(s, pos, "summary"@, "created_at"@, created_val, rest);
        },
    }
}

/// The task metric lines read back exactly.
proof fn lemma_task_metrics_round(s: Seq<char>, pos: int, m: TaskMetrics, rest: Seq<char>)
    requires
        0 <= pos <= s.len(),
        s.skip(pos) == spec_encode_task_metrics(m) + rest,
    ensures
        spec_decode_task_metrics(s, pos) == Some((m, pos + spec_encode_task_metrics(m).len())),
        pos + spec_encode_task_metrics(m).len() <= s.len(),
        s.skip(pos + spec_encode_task_metrics(m).len() as int) == rest,
{
    lemma_task_keys();
    let l1 = line("tokens"@, i64_chars(m.tokens));
    let l2 = line("elapsed_ms"@, i64_chars(m.elapsed_ms));
    let l3 = line("retry_count"@, i64_chars(m.retry_count));
    assert(s.skip(pos) =~= l1 + (l2 + (l3 + rest)));
    lemma_step(s, pos, "tokens"@, i64_chars(m.tokens), l2 + (l3 + rest));
    lemma_parse_i64_chars(m.tokens);
    let p1 = pos + l1.len() as int;
    lemma_step(s, p1, "elapsed_ms"@, i64_chars(m.elapsed_ms), l3 + rest);
    lemma_parse_i64_chars(m.elapsed_ms);
    let p2 = p1 + l2.len() as int;
    lemma_step(s, p2, "retry_count"@, i64_chars(m.retry_count), rest);
    lemma_parse_i64_chars(m.retry_count);
    assert(spec_encode_task_metrics(m).len() == l1.len() + l2.len() + l3.len());
}

/// The comment lines read back exactly.
proof fn lemma_task_comments_round(s: Seq<char>, pos: int, cs: Seq<CommentView>, rest: Seq<char>)
    requires
        cs.len() <= i64::MAX,
        comments_fit(cs),
        0 <= pos <= s.len(),
        s.skip(pos) == spec_encode_task_comments(cs) + rest,
    ensures
        spec_decode_task_comments(s, pos) == Some(
            (cs, pos + spec_encode_task_comments(cs).len()),
        ),
        pos + spec_encode_task_comments(cs).len() <= s.len(),
        s.skip(pos + spec_encode_task_comments(cs).len() as int) == rest,
{
    lemma_task_keys();
    reveal_strlit("comments_len");
    assert(key_ok("comments_len"@)) by {
        assert("comments_len"@.len() == 12);
    }
    let n = cs.len() as i64;
    let l0 = line("comments_len"@, i64_chars(n));
    let run = encode_comments(cs);
    assert(s.skip(pos) =~= l0 + (run + rest));
    lemma_step(s, pos, "comments_len"@, i64_chars(n), run + rest);
    lemma_parse_i64_chars(n);
    let p1 = pos + l0.len() as int;
    lemma_comments_round(s, p1, cs, rest);
    assert(spec_encode_task_comments(cs).len() == l0.len() + run.len());
}

/// The trailing fields of a task record read back exactly.
#[verifier::rlimit(100)]
proof fn lemma_task_tail_round(s: Seq<char>, pos: int, t: TaskView)
    requires
        task_fits(t),
        0 <= pos <= s.len(),
        s.skip(pos) == line("created_at"@, i64_chars(t.created_at as i64)) + (line(
            "updated_at"@,
            i64_chars(t.updated_at as i64),
        ) + ((match t.completed_at {
            Some(x) => line("completed_at"@, i64_chars(x as i64)),
            None => Seq::<char>::empty(),
        }) + (spec_encode_task_metrics(t.metrics) + spec_encode_task_comments(t.comments)))),
    ensures
        spec_decode_task_tail(
            s,
            pos,
            t.id,
            t.goal_id,
            t.description,
            t.contract,
            t.state,
            t.blocked_by,
            t.result,
        ) == Some(t),
{
    lemma_task_keys();
    let r10 = spec_encode_task_metrics(t.metrics) + spec_encode_task_comments(t.comments);
    let r9 = (match t.completed_at {
        Some(x) => line("completed_at"@, i64_chars(x as i64)),
        None => Seq::<char>::empty(),
    }) + r10;
    let r8 = line("updated_at"@, i64_chars(t.updated_at as i64)) + r9;
    lemma_step(s, pos, "created_at"@, i64_chars(t.created_at as i64), r8);
    lemma_parse_i64_chars(t.created_at as i64);
    let p8 = pos + line("created_at"@, i64_chars(t.created_at as i64)).len() as int;
    lemma_step(s, p8, "updated_at"@, i64_chars(t.updated_at as i64), r9);
    lemma_parse_i64_chars(t.updated_at as i64);
    let p9 = p8 + line("updated_at"@, i64_chars(t.updated_at as i64)).len() as int;
    let p10: int;
    match t.completed_at {
        Some(x) => {
            assert(r9 =~= line("completed_at"@, i64_chars(x as i64)) + r10);
            assert(s.skip(p9) == line("completed_at"@, i64_chars(x as i64)) + r10);
            lemma_step(s, p9, "completed_at"@, i64_chars(x as i64), r10);
            lemma_parse_i64_chars(x as i64);
            p10 = p9 + line("completed_at"@, i64_chars(x as i64)).len() as int;
        },
        None => {
            assert(r9 =~= r10);
            assert(r10 =~= line("tokens"@, i64_chars(t.metrics.tokens)) + ((line(
                "elapsed_ms"@,
                i64_chars(t.metrics.elapsed_ms),
            ) + line("retry_count"@, i64_chars(t.metrics.retry_count)))
                + spec_encode_task_comments(t.comments)));
            assert(s.skip(p9) == line("tokens"@, i64_chars(t.metrics.tokens)) + ((line(
                "elapsed_ms"@,
                i64_chars(t.metrics.elapsed_ms),
            ) + line("retry_count"@, i64_chars(t.metrics.retry_count)))
                + spec_encode_task_comments(t.comments)));
            lemma_step_mismatch(
                s,
                p9,
                "completed_at"@,
                "tokens"@,
                i64_chars(t.metrics.tokens),
                (line("elapsed_ms"@, i64_chars(t.metrics.elapsed_ms)) + line(
                    "retry_count"@,
                    i64_chars(t.metrics.retry_count),
                )) + spec_encode_task_comments(t.comments),
            );
            p10 = p9;
        },
    }
    assert(s.skip(p10) == r10);
    lemma_task_metrics_round(s, p10, t.metrics, spec_encode_task_comments(t.comments));
    let p11 = p10 + spec_encode_task_metrics(t.metrics).len() as int;
    assert(spec_encode_task_comments(t.comments) =~= spec_encode_task_comments(t.comments)
        + Seq::<char>::empty());
    lemma_task_comments_round(s, p11, t.comments, Seq::<char>::empty());
    let p12 = p11 + spec_encode_task_comments(t.comments).len() as int;
    assert(p12 == s.len());
}

/// Decoding inverts encoding for every task record: the round trip
/// through the record text gives back a task equal in every field,
/// including optional fields set to absent and empty lists.
#[verifier::rlimit(100)]
pub proof fn lemma_task_round_trip(t: TaskView)
    requires
        task_fits(t),
    ensures
        spec_decode_task(spec_encode_task(t)) == Some(t),
{
    lemma_task_keys();
    let s = spec_encode_task(t);
    let tok = spec_task_state_token(t.state);
    let r10 = spec_encode_task_metrics(t.metrics) + spec_encode_task_comments(t.comments);
    let r9 = (match t.completed_at {
        Some(x) => line("completed_at"@, i64_chars(x as i64)),
        None => Seq::<char>::empty(),
    }) + r10;
    let r8 = line("updated_at"@, i64_chars(t.updated_at as i64)) + r9;
    let r7 = line("created_at"@, i64_chars(t.created_at as i64)) + r8;
    let r6 = spec_encode_result(t.result) + r7;
    let r5 = spec_encode_blocked(t.blocked_by) + r6;
    let r4 = line("state"@, tok) + r5;
    let r3 = spec_encode_contract(t.contract) + r4;
    let r2 = line("description"@, t.description) + r3;
    let r1 = line("goal_id"@, t.goal_id) + r2;
    assert(s == line("id"@, t.id) + r1);
    assert(s.skip(0) =~= s);
    lemma_step(s, 0, "id"@, t.id, r1);
    let p1 = 0 + line("id"@, t.id).len() as int;
    lemma_step(s, p1, "goal_id"@, t.goal_id, r2);
    let p2 = p1 + line("goal_id"@, t.goal_id).len() as int;
    lemma_step(s, p2, "description"@, t.description, r3);
    let p3 = p2 + line("description"@, t.description).len() as int;
    lemma_contract_round(s, p3, t.contract, tok, r5);
    let p4 = p3 + spec_encode_contract(t.contract).len() as int;
    lemma_step(s, p4, "state"@, tok, r5);
    proof_task_state_token(t.state);
    let p5 = p4 + line("state"@, tok).len() as int;
    lemma_blocked_round(s, p5, t.blocked_by, r6);
    let p6 = p5 + spec_encode_blocked(t.blocked_by).len() as int;
    lemma_result_round(s, p6, t.result, i64_chars(t.created_at as i64), r8);
    let p7 = p6 + spec_encode_result(t.result).len() as int;
    assert(s.skip(p7) == r7);
    lemma_task_tail_round(s, p7, t);
    assert(spec_decode_task(s) == Some(t));
}

/// Append the leading lines of a task record: IDs, description, and the
/// optional contract.
fn emit_task_head(out: &mut Vec<char>, t: &Task)
    ensures
        final(out)@ == old(out)@ + (line("id"@, t@.id) + (line("goal_id"@, t@.goal_id) + (line(
            "description"@,
            t@.description,
        ) + spec_encode_contract(t@.contract)))),
{
    let v_id = crate::text::str_to_chars(t.id.as_str());
    emit_line(out, "id", &v_id);
    let v_gid = crate::text::str_to_chars(t.goal_id.as_str());
    emit_line(out, "goal_id", &v_gid);
    let v_desc = crate::text::str_to_chars(t.description.as_str());
    emit_line(out, "description", &v_desc);
    match &t.contract {
        Some(c) => {
            let v_r = crate::text::str_to_chars(c.receives.as_str());
            emit_line(out, "receives", &v_r);
            let v_p = crate::text::str_to_chars(c.produces.as_str());
            emit_line(out, "produces", &v_p);
            let v_v = crate::text::str_to_chars(c.verify.as_str());
            emit_line(out, "verify", &v_v);
        },
        None => {},
    }
    proof {
        assert(out@ =~= old(out)@ + (line("id"@, t@.id) + (line("goal_id"@, t@.goal_id) + (line(
            "description"@,
            t@.description,
        ) + spec_encode_contract(t@.contract)))));
    }
}

/// Append the result lines of a task record, if any.
fn emit_task_result(out: &mut Vec<char>, t: &Task)
    requires
        (match t.result {
            Some(o) => o.artifacts@.len() <= i64::MAX,
            None => true,
        }),
    ensures
        final(out)@ == old(out)@ + spec_encode_result(t@.result),
{
    match &t.result {
        Some(o) => {
            let v_s = crate::text::str_to_chars(o.summary.as_str());
            emit_line(out, "summary", &v_s);
            let v_al = i64_to_chars(o.artifacts.len() as i64);
            emit_line(out, "artifacts_len", &v_al);
            emit_str_list(out, "artifact", &o.artifacts);
        },
        None => {},
    }
    proof {
        assert(out@ =~= old(out)@ + spec_encode_result(t@.result));
    }
}

/// Append the trailing lines of a task record: timestamps, metrics, and
/// comments.
fn emit_task_tail(out: &mut Vec<char>, t: &Task)
    requires
        t.comments@.len() <= i64::MAX,
    ensures
        final(out)@ == old(out)@ + (line("created_at"@, i64_chars(t@.created_at as i64)) + (line(
            "updated_at"@,
            i64_chars(t@.updated_at as i64),
        ) + ((match t@.completed_at {
            Some(x) => line("completed_at"@, i64_chars(x as i64)),
            None => Seq::<char>::empty(),
        }) + (spec_encode_task_metrics(t@.metrics) + spec_encode_task_comments(t@.comments))))),
{
    let v_ca = i64_to_chars(t.created_at);
    emit_line(out, "created_at", &v_ca);
    let v_ua = i64_to_chars(t.updated_at);
    emit_line(out, "updated_at", &v_ua);
    match t.completed_at {
        Some(x) => {
            let v = i64_to_chars(x);
            emit_line(out, "completed_at", &v);
        },
        None => {},
    }
    let v_tk = i64_to_chars(t.metrics.tokens);
    emit_line(out, "tokens", &v_tk);
    let v_el = i64_to_chars(t.metrics.elapsed_ms);
    emit_line(out, "elapsed_ms", &v_el);
    let v_rc = i64_to_chars(t.metrics.retry_count);
    emit_line(out, "retry_count", &v_rc);
    let v_cl = i64_to_chars(t.comments.len() as i64);
    emit_line(out, "comments_len", &v_cl);
    emit_comments(out, &t.comments);
    proof {
        assert(out@ =~= old(out)@ + (line("created_at"@, i64_chars(t@.created_at as i64)) + (line(
            "updated_at"@,
            i64_chars(t@.updated_at as i64),
        ) + ((match t@.completed_at {
            Some(x) => line("completed_at"@, i64_chars(x as i64)),
            None => Seq::<char>::empty(),
        }) + (spec_encode_task_metrics(t@.metrics) + spec_encode_task_comments(t@.comments))))));
    }
}

/// Write a task record as text. List lengths must fit the record's
/// count lines, as any machine-built task's do.
#[verifier::rlimit(100)]
pub fn encode_task(t: &Task) -> (r: Vec<char>)
    requires
        t.blocked_by@.len() <= i64::MAX,
        (match t.result {
            Some(o) => o.artifacts@.len() <= i64::MAX,
            None => true,
        }),
        t.comments@.len() <= i64::MAX,
    ensures
        r@ == spec_encode_task(t@),
{
    let mut out: Vec<char> = Vec::new();
    emit_task_head(&mut out, t);
    let ghost head = out@;
    let v_state = crate::text::str_to_chars(t.state.as_token());
    emit_line(&mut out, "state", &v_state);
    let v_blen = i64_to_chars(t.blocked_by.len() as i64);
    emit_line(&mut out, "blocked_by_len", &v_blen);
    emit_str_list(&mut out, "blocked_by", &t.blocked_by);
    proof {
        assert(out@ =~= head + (line("state"@, crate::state::spec_task_state_token(t@.state))
            + spec_encode_blocked(t@.blocked_by)));
    }
    emit_task_result(&mut out, t);
    emit_task_tail(&mut out, t);
    proof {
        assert(out@ =~= spec_encode_task(t@));
    }
    out
}

/// Read a task record back from text; a malformed record yields
/// nothing.
#[verifier::rlimit(100)]
pub fn decode_task(s: &Vec<char>) -> (r: Option<Task>)
    ensures
        match r {
            Some(t) => spec_decode_task(s@) == Some(t@),
            None => spec_decode_task(s@) is None,
        },
{
    let (id_chars, p1) = match parse_line_exec(s, 0, "id") {
        Some(x) => x,
        None => {
            return None;
        },
    };
    let (gid_chars, p2) = match parse_line_exec(s, p1, "goal_id") {
        Some(x) => x,
        None => {
            return None;
        },
    };
    let (desc_chars, p3) = match parse_line_exec(s, p2, "description") {
        Some(x) => x,
        None => {
            return None;
        },
    };
    let (contract, p4) = match parse_line_exec(s, p3, "receives") {
        None => (None, p3),
        Some((rv, q1)) => {
            let (pv, q2) = match parse_line_exec(s, q1, "produces") {
                Some(x) => x,
                None => {
                    return None;
                },
            };
            let (vv, q3) = match parse_line_exec(s, q2, "verify") {
                Some(x) => x,
                None => {
                    return None;
                },
            };
            (
                Some(
                    crate::contract::Contract {
                        receives: crate::text::chars_to_string(&rv),
                        produces: crate::text::chars_to_string(&pv),
                        verify: crate::text::chars_to_string(&vv),
                    },
                ),
                q3,
            )
        },
    };
    let (state_chars, p5) = match parse_line_exec(s, p4, "state") {
        Some(x) => x,
        None => {
            return None;
        },
    };
    let state = if chars_eq_str(&state_chars, "pending") {
        TaskState::Pending
    } else if chars_eq_str(&state_chars, "blocked") {
        TaskState::Blocked
    } else if chars_eq_str(&state_chars, "in_progress") {
        TaskState::InProgress
    } else if chars_eq_str(&state_chars, "verifying") {
        TaskState::Verifying
    } else if chars_eq_str(&state_chars, "completed") {
        TaskState::Completed
    } else if chars_eq_str(&state_chars, "failed") {
        TaskState::Failed
    } else {
        proof {
            assert(task_state_of_token(state_chars@) is None);
        }
        return None;
    };
    proof {
        assert(task_state_of_token(state_chars@) == Some(state));
    }
    let (bn, p5a) = match parse_i64_line_exec(s, p5, "blocked_by_len") {
        Some(x) => x,
        None => {
            return None;
        },
    };
    if bn < 0 {
        return None;
    }
    let (blocked_by, p6) = match parse_str_list_exec(s, p5a, "blocked_by", bn as u64) {
        Some(x) => x,
        None => {
            return None;
        },
    };
    let (result, p7) = match parse_line_exec(s, p6, "summary") {
        None => (None, p6),
        Some((sv, q1)) => {
            let (an, q2) = match parse_i64_line_exec(s, q1, "artifacts_len") {
                Some(x) => x,
                None => {
                    return None;
                },
            };
            if an < 0 {
                return None;
            }
            let (artifacts, q3) = match parse_str_list_exec(s, q2, "artifact", an as u64) {
                Some(x) => x,
                None => {
                    return None;
                },
            };
            (
                Some(
                    crate::outcome::Outcome {
                        summary: crate::text::chars_to_string(&sv),
                        artifacts,
                    },
                ),
                q3,
            )
        },
    };
    let (created_at, p8) = match parse_i64_line_exec(s, p7, "created_at") {
        Some(x) => x,
        None => {
            return None;
        },
    };
    let (updated_at, p9) = match parse_i64_line_exec(s, p8, "updated_at") {
        Some(x) => x,
        None => {
            return None;
        },
    };
    let (completed_at, p10) = match parse_i64_line_exec(s, p9, "completed_at") {
        Some((x, p)) => (Some(x), p),
        None => (None, p9),
    };
    let (m_tokens, p10a) = match parse_i64_line_exec(s, p10, "tokens") {
        Some(x) => x,
        None => {
            return None;
        },
    };
    let (m_elapsed, p10b) = match parse_i64_line_exec(s, p10a, "elapsed_ms") {
        Some(x) => x,
        None => {
            return None;
        },
    };
    let (m_retry, p11) = match parse_i64_line_exec(s, p10b, "retry_count") {
        Some(x) => x,
        None => {
            return None;
        },
    };
    let (cn, p11a) = match parse_i64_line_exec(s, p11, "comments_len") {
        Some(x) => x,
        None => {
            return None;
        },
    };
    if cn < 0 {
        return None;
    }
    let (comments, p12) = match parse_comments_exec(s, p11a, cn as u64) {
        Some(x) => x,
        None => {
            return None;
        },
    };
    if p12 != s.len() {
        return None;
    }
    let t = Task {
        id: crate::text::chars_to_string(&id_chars),
        goal_id: crate::text::chars_to_string(&gid_chars),
        description: crate::text::chars_to_string(&desc_chars),
        contract,
        state,
        blocked_by,
        result,
        created_at,
        updated_at,
        completed_at,
        metrics: TaskMetrics { tokens: m_tokens, elapsed_ms: m_elapsed, retry_count: m_retry },
        comments,
    };
    proof {
        assert(spec_decode_task(s@) == Some(t@));
    }
    Some(t)
}

} // verus!
