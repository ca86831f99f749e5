use vstd::prelude::*;
use vstd::string::StrSliceExecFns;

verus! {

/// Whether `std` counts `c` as white space (Unicode's `White_Space` property).
pub uninterp spec fn is_space(c: char) -> bool;

/// Relies on `char::is_whitespace`, whose answer depends on the character alone.
#[verifier::external_body]
fn whitespace(c: char) -> (r: bool)
    ensures
        r == is_space(c),
{
    c.is_whitespace()
}

/// `s` without its leading white space.
pub open spec fn trim_start(s: Seq<char>) -> Seq<char>
    decreases s.len(),
{
    if s.len() > 0 && is_space(s[0]) {
        trim_start(s.drop_first())
    } else {
        s
    }
}

/// `s` without its trailing white space.
pub open spec fn trim_end(s: Seq<char>) -> Seq<char>
    decreases s.len(),
{
    if s.len() > 0 && is_space(s.last()) {
        trim_end(s.drop_last())
    } else {
        s
    }
}

/// `s` without white space at either end.
pub open spec fn trimmed(s: Seq<char>) -> Seq<char> {
    trim_end(trim_start(s))
}

/// One of the five entries of the menu.
#[derive(PartialEq, Eq, Structural, Debug, Clone, Copy)]
pub enum MenuChoice {
    Add,
    List,
    Delete,
    MarkDone,
    Quit,
}

/// The menu entry that a line selects: its trimmed text is exactly one of
/// the digits 1 to 5.
pub open spec fn choice_of(line: Seq<char>) -> Option<MenuChoice> {
    let t = trimmed(line);
    if t == seq!['1'] {
        Some(MenuChoice::Add)
    } else if t == seq!['2'] {
        Some(MenuChoice::List)
    } else if t == seq!['3'] {
        Some(MenuChoice::Delete)
    } else if t == seq!['4'] {
        Some(MenuChoice::MarkDone)
    } else if t == seq!['5'] {
        Some(MenuChoice::Quit)
    } else {
        None
    }
}

/// Whether every character of `s` is a decimal digit.
pub open spec fn all_digits(s: Seq<char>) -> bool {
    forall|i: int| 0 <= i < s.len() ==> '0' <= #[trigger] s[i] <= '9'
}

/// The number that the decimal digits `s` write.
pub open spec fn digits_value(s: Seq<char>) -> nat
    decreases s.len(),
{
    if s.len() == 0 {
        0
    } else {
        digits_value(s.drop_last()) * 10 + ((s.last() as u32) - ('0' as u32)) as nat
    }
}

/// The identifier that the text `s` writes: an optional `+`, then one or
/// more decimal digits, whose value fits a `usize`.
pub open spec fn id_of(s: Seq<char>) -> Option<usize> {
    let body = if s.len() > 0 && s[0] == '+' {
        s.drop_first()
    } else {
        s
    };
    digits_id(body)
}

/// The number that the decimal digits `s` write, where there is at least one
/// digit, nothing else, and the number fits a `usize`.
pub open spec fn digits_id(s: Seq<char>) -> Option<usize> {
    if s.len() > 0 && all_digits(s) && digits_value(s) <= usize::MAX {
        Some(digits_value(s) as usize)
    } else {
        None
    }
}

/// The characters of `s`, in order.
fn chars_of(s: &str) -> (r: Vec<char>)
    ensures
        r@ == s@,
{
    let mut r: Vec<char> = Vec::new();
    for c in it: s.chars()
        invariant
            it.seq() == s@,
            r@ == it.seq().take(it.index() as int),
    {
        r.push(c);
        proof {
            assert(r@ =~= it.seq().take(it.index() + 1));
        }
    }
    proof {
        assert(r@ =~= s@);
    }
    r
}

proof fn lemma_trim_start_step(s: Seq<char>, lo: int)
    requires
        0 <= lo < s.len(),
        is_space(s[lo]),
    ensures
        trim_start(s.subrange(lo, s.len() as int)) == trim_start(s.subrange(lo + 1, s.len() as int)),
{
    assert(s.subrange(lo, s.len() as int).drop_first() =~= s.subrange(lo + 1, s.len() as int));
}

proof fn lemma_trim_end_step(s: Seq<char>, lo: int, hi: int)
    requires
        0 <= lo < hi <= s.len(),
        is_space(s[hi - 1]),
    ensures
        trim_end(s.subrange(lo, hi)) == trim_end(s.subrange(lo, hi - 1)),
{
    assert(s.subrange(lo, hi).drop_last() =~= s.subrange(lo, hi - 1));
}

/// The bounds of `v` without white space at either end.
fn trim_bounds(v: &Vec<char>) -> (r: (usize, usize))
    ensures
        r.0 <= r.1 <= v@.len(),
        v@.subrange(r.0 as int, r.1 as int) == trimmed(v@),
{
    let n = v.len();
    let mut lo: usize = 0;
    proof {
        assert(v@.subrange(0, n as int) =~= v@);
    }
    while lo < n && whitespace(v[lo])
        invariant
            lo <= n == v@.len(),
            trim_start(v@) == trim_start(v@.subrange(lo as int, n as int)),
        decreases n - lo,
    {
        proof {
            lemma_trim_start_step(v@, lo as int);
        }
        lo = lo + 1;
    }
    let mut hi: usize = n;
    proof {
        assert(trim_start(v@) == v@.subrange(lo as int, n as int));
    }
    while hi > lo && whitespace(v[hi - 1])
        invariant
            lo <= hi <= n == v@.len(),
            trimmed(v@) == trim_end(v@.subrange(lo as int, hi as int)),
        decreases hi,
    {
        proof {
            lemma_trim_end_step(v@, lo as int, hi as int);
        }
        hi = hi - 1;
    }
    (lo, hi)
}

/// The description that a line of input gives: the line without white
/// space at either end.
pub fn parse_description(line: &str) -> (r: String)
    ensures
        r@ == trimmed(line@),
{
    let v = chars_of(line);
    let (lo, hi) = trim_bounds(&v);
    line.substring_char(lo, hi).to_owned()
}

/// The menu entry that a line of input selects, if any.
pub fn parse_choice(line: &str) -> (r: Option<MenuChoice>)
    ensures
        r == choice_of(line@),
{
    let v = chars_of(line);
    let (lo, hi) = trim_bounds(&v);
    let ghost t = v@.subrange(lo as int, hi as int);
    if hi - lo != 1 {
        proof {
            assert(t.len() != 1);
            assert(t != seq!['1'] && t != seq!['2'] && t != seq!['3']);
            assert(t != seq!['4'] && t != seq!['5']);
        }
        return None;
    }
    let c = v[lo];
    proof {
        assert(t =~= seq![c]);
    }
    if c == '1' {
        Some(MenuChoice::Add)
    } else if c == '2' {
        Some(MenuChoice::List)
    } else if c == '3' {
        Some(MenuChoice::Delete)
    } else if c == '4' {
        Some(MenuChoice::MarkDone)
    } else if c == '5' {
        Some(MenuChoice::Quit)
    } else {
        proof {
            assert(seq![c] != seq!['1'] && seq![c] != seq!['2'] && seq![c] != seq!['3']) by {
                assert(seq![c][0] == c);
            }
            assert(seq![c] != seq!['4'] && seq![c] != seq!['5']) by {
                assert(seq![c][0] == c);
            }
        }
        None
    }
}

/// A prefix of digits never writes a larger number than the whole.
proof fn lemma_prefix_value_le(s: Seq<char>, j: int)
    requires
        0 <= j <= s.len(),
        all_digits(s),
    ensures
        digits_value(s.take(j)) <= digits_value(s),
    decreases s.len(),
{
    if j < s.len() {
        let p = s.drop_last();
        assert(all_digits(p)) by {
            assert forall|i: int| 0 <= i < p.len() implies '0' <= #[trigger] p[i] <= '9' by {
                assert(p[i] == s[i]);
            }
        }
        lemma_prefix_value_le(p, j);
        assert(p.take(j) =~= s.take(j));
    } else {
        assert(s.take(j) =~= s);
    }
}

/// The identifier that a line of input writes, if it writes one: the line
/// is trimmed and read as an unsigned decimal number.
pub fn parse_id(line: &str) -> (r: Option<usize>)
    ensures
        r == id_of(trimmed(line@)),
{
    let v = chars_of(line);
    let (lo, hi) = trim_bounds(&v);
    let ghost t = v@.subrange(lo as int, hi as int);
    let mut start = lo;
    if start < hi && v[start] == '+' {
        start = start + 1;
    }
    let ghost body = v@.subrange(start as int, hi as int);
    proof {
        if lo < hi && v@[lo as int] == '+' {
            assert(t.drop_first() =~= body);
        } else {
            assert(t =~= body);
        }
        assert(t == trimmed(line@));
        assert(id_of(t) == digits_id(body));
    }
    if start == hi {
        return None;
    }
    let mut acc: usize = 0;
    let mut i: usize = start;
    proof {
        assert(body.take(0) =~= Seq::<char>::empty());
    }
    while i < hi
        invariant
            id_of(trimmed(line@)) == digits_id(body),
            lo <= start <= i <= hi <= v@.len(),
            body == v@.subrange(start as int, hi as int),
            forall|k: int| start <= k < i ==> '0' <= #[trigger] v@[k] <= '9',
            acc == digits_value(body.take(i - start)),
        decreases hi - i,
    {
        let c = v[i];
        if !('0' <= c && c <= '9') {
            proof {
                assert(body[i - start] == c);
                assert(!all_digits(body));
            }
            return None;
        }
        let d = ((c as u32) - ('0' as u32)) as usize;
        let ghost pre = body.take(i - start);
        let ghost next = body.take(i + 1 - start);
        proof {
            assert(next.drop_last() =~= pre);
            assert(next.last() == c);
            assert(digits_value(next) == acc * 10 + d);
        }
        if acc > (usize::MAX - d) / 10 {
            proof {
                assert(acc * 10 + d > usize::MAX) by (nonlinear_arith)
                    requires
                        acc > (usize::MAX - d) / 10,
                        d <= 9,
                ;
                if all_digits(body) {
                    lemma_prefix_value_le(body, i + 1 - start);
                }
            }
            return None;
        }
        assert(acc * 10 + d <= usize::MAX) by (nonlinear_arith)
            requires
                acc <= (usize::MAX - d) / 10,
                d <= 9,
        ;
        acc = acc * 10 + d;
        i = i + 1;
    }
    proof {
        assert(body.take(i - start) =~= body);
        assert(all_digits(body)) by {
            assert forall|k: int| 0 <= k < body.len() implies '0' <= #[trigger] body[k] <= '9' by {
                assert(body[k] == v@[start + k]);
            }
        }
    }
    Some(acc)
}

} // verus!
