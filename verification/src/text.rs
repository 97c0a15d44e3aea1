//! Small functions on text: decimal numbers, concatenation and search.

use vstd::prelude::*;
use vstd::string::*;

verus! {

/// The decimal digit of `d`, for `d` below ten.
pub open spec fn digit(d: nat) -> char {
    if d == 0 {
        '0'
    } else if d == 1 {
        '1'
    } else if d == 2 {
        '2'
    } else if d == 3 {
        '3'
    } else if d == 4 {
        '4'
    } else if d == 5 {
        '5'
    } else if d == 6 {
        '6'
    } else if d == 7 {
        '7'
    } else if d == 8 {
        '8'
    } else {
        '9'
    }
}

/// The decimal notation of `n`, without leading zeros.
pub open spec fn decimal(n: nat) -> Seq<char>
    decreases n,
{
    if n < 10 {
        seq![digit(n)]
    } else {
        decimal(n / 10).push(digit(n % 10))
    }
}

/// Whether `part` occurs in `whole` as a run of consecutive characters.
pub open spec fn contains_text(whole: Seq<char>, part: Seq<char>) -> bool {
    exists|i: int|
        0 <= i <= whole.len() - part.len() && #[trigger] whole.subrange(i, i + part.len()) == part
}

/// Whether `text` starts with `*.`.
pub open spec fn is_wildcard(text: Seq<char>) -> bool {
    text.len() >= 2 && text[0] == '*' && text[1] == '.'
}

fn digit_text(d: u64) -> (s: &'static str)
    requires
        d < 10,
    ensures
        s@ == seq![digit(d as nat)],
{
    proof {
        reveal_strlit("0");
        reveal_strlit("1");
        reveal_strlit("2");
        reveal_strlit("3");
        reveal_strlit("4");
        reveal_strlit("5");
        reveal_strlit("6");
        reveal_strlit("7");
        reveal_strlit("8");
        reveal_strlit("9");
    }
    match d {
        0 => "0",
        1 => "1",
        2 => "2",
        3 => "3",
        4 => "4",
        5 => "5",
        6 => "6",
        7 => "7",
        8 => "8",
        _ => "9",
    }
}

/// Writes `n` in decimal.
pub fn to_decimal(n: u64) -> (s: String)
    ensures
        s@ == decimal(n as nat),
    decreases n,
{
    if n < 10 {
        digit_text(n).to_owned()
    } else {
        let mut s = to_decimal(n / 10);
        s.append(digit_text(n % 10));
        s
    }
}

/// Two numbers with the same decimal notation are the same number.
pub proof fn law_decimal_injective(a: nat, b: nat)
    requires
        decimal(a) == decimal(b),
    ensures
        a == b,
    decreases a,
{
    let da = decimal(a);
    let db = decimal(b);
    assert(da.last() == digit(a % 10)) by {
        if a < 10 {
            assert(a % 10 == a);
        }
    }
    assert(db.last() == digit(b % 10)) by {
        if b < 10 {
            assert(b % 10 == b);
        }
    }
    assert(a % 10 == b % 10);
    lemma_decimal_len(a);
    lemma_decimal_len(b);
    if a < 10 {
        assert(b < 10);
    } else {
        assert(b >= 10);
        assert(da.drop_last() =~= decimal(a / 10));
        assert(db.drop_last() =~= decimal(b / 10));
        law_decimal_injective(a / 10, b / 10);
    }
}

proof fn lemma_decimal_len(n: nat)
    ensures
        decimal(n).len() >= 1,
        decimal(n).len() == 1 <==> n < 10,
    decreases n,
{
    if n >= 10 {
        lemma_decimal_len(n / 10);
    }
}

/// Concatenates two pieces of text.
pub fn join(a: &str, b: &str) -> (s: String)
    ensures
        s@ == a@ + b@,
{
    let mut s = a.to_owned();
    s.append(b);
    s
}

/// Clones an optional piece of text.
pub fn clone_text(text: &Option<String>) -> (r: Option<String>)
    ensures
        r == *text,
{
    match text {
        Some(s) => Some(s.clone()),
        None => None,
    }
}

/// Collects the characters of a piece of text.
fn chars_of(s: &str) -> (v: Vec<char>)
    ensures
        v@ == s@,
{
    let mut v: Vec<char> = Vec::new();
    for c in it: s.chars()
        invariant
            it.seq() == s@,
            v@ == s@.take(it.index() as int),
    {
        v.push(c);
        assert(s@.take(it.index() as int + 1) =~= s@.take(it.index() as int).push(c));
    }
    assert(s@.take(s@.len() as int) =~= s@);
    v
}

/// Tells whether `part` occurs in `whole`.
pub fn contains(whole: &str, part: &str) -> (r: bool)
    ensures
        r == contains_text(whole@, part@),
{
    let w = chars_of(whole);
    let p = chars_of(part);
    if p.len() > w.len() {
        return false;
    }
    let last: usize = w.len() - p.len();
    let mut i: usize = 0;
    while i <= last
        invariant
            w@ == whole@,
            p@ == part@,
            last == w.len() - p.len(),
            i <= last + 1,
            forall|k: int| 0 <= k < i ==> #[trigger] w@.subrange(k, k + p.len()) != p@,
        decreases last + 1 - i,
    {
        let mut j: usize = 0;
        while j < p.len() && w[i + j] == p[j]
            invariant
                i <= last,
                last == w.len() - p.len(),
                j <= p.len(),
                forall|k: int| 0 <= k < j ==> w[i + k] == p[k],
            decreases p.len() - j,
        {
            j += 1;
        }
        if j == p.len() {
            assert(w@.subrange(i as int, i + p.len()) =~= p@);
            return true;
        }
        assert(w@.subrange(i as int, i + p.len())[j as int] != p@[j as int]);
        if i == last {
            return false;
        }
        i += 1;
    }
    false
}

/// Takes the leading `*.` off, where there is one.
pub fn strip_wildcard(text: &str) -> (r: Option<String>)
    ensures
        match r {
            Some(rest) => is_wildcard(text@) && rest@ == text@.skip(2),
            None => !is_wildcard(text@),
        },
{
    let len: usize = text.unicode_len();
    if len >= 2 && text.get_char(0) == '*' && text.get_char(1) == '.' {
        let rest = text.substring_char(2, len);
        assert(text@.subrange(2, len as int) =~= text@.skip(2));
        Some(rest.to_owned())
    } else {
        None
    }
}

/// The number that a piece of text denotes, read as decimal digits from left to right.
pub open spec fn number_of(text: Seq<char>) -> int
    decreases text.len(),
{
    if text.len() == 0 {
        0
    } else {
        10 * number_of(text.drop_last()) + (text.last() as int - '0' as int)
    }
}

/// Reading the decimal notation of a number gives the number back. The notation has digits alone,
/// at least one of them, and begins with a zero for the number zero only.
pub proof fn law_decimal_reads_back(n: nat)
    ensures
        number_of(decimal(n)) == n,
        decimal(n).len() > 0,
        forall|i: int| 0 <= i < decimal(n).len() ==> '0' <= #[trigger] decimal(n)[i] <= '9',
        decimal(n)[0] == '0' ==> n == 0,
    decreases n,
{
    let text = decimal(n);
    if n < 10 {
        assert(text.drop_last() =~= Seq::empty());
        assert(number_of(text.drop_last()) == 0);
        assert(text.last() == digit(n));
    } else {
        law_decimal_reads_back(n / 10);
        assert(text.drop_last() =~= decimal(n / 10));
        assert forall|i: int| 0 <= i < text.len() implies '0' <= #[trigger] text[i] <= '9' by {
            if i < text.len() - 1 {
                assert(text[i] == decimal(n / 10)[i]);
            }
        }
        assert(text[0] == decimal(n / 10)[0]);
    }
}

/// A piece of text contains exactly those pieces that it can be cut into three around.
pub proof fn law_contains_what_it_is_cut_around(
    before: Seq<char>,
    part: Seq<char>,
    after: Seq<char>,
)
    ensures
        contains_text(before + part + after, part),
{
    let whole = before + part + after;
    let i = before.len() as int;
    assert(whole.subrange(i, i + part.len()) =~= part);
}

/// What a piece of text contains stands in it between something before and something after.
pub proof fn law_contained_text_can_be_cut_out(whole: Seq<char>, part: Seq<char>)
    requires
        contains_text(whole, part),
    ensures
        exists|before: Seq<char>, after: Seq<char>| whole == #[trigger] (before + part + after),
{
    let i = choose|i: int|
        0 <= i <= whole.len() - part.len() && #[trigger] whole.subrange(i, i + part.len()) == part;
    let before = whole.take(i);
    let after = whole.skip(i + part.len());
    assert(whole =~= before + whole.subrange(i, i + part.len()) + after);
    assert(whole == before + part + after);
}

/// A wildcard is exactly a star and a dot before some text, and that text is what is left of it.
pub proof fn law_wildcard_is_star_dot(text: Seq<char>, rest: Seq<char>)
    ensures
        is_wildcard(text) <==> text.len() >= 2 && text == "*."@ + text.skip(2),
        is_wildcard("*."@ + rest),
        ("*."@ + rest).skip(2) == rest,
{
    reveal_strlit("*.");
    let star = "*."@ + rest;
    assert(star.skip(2) =~= rest);
    if is_wildcard(text) {
        assert(text =~= "*."@ + text.skip(2));
    }
    if text.len() >= 2 && text == "*."@ + text.skip(2) {
        assert(text[0] == ("*."@ + text.skip(2))[0]);
        assert(text[1] == ("*."@ + text.skip(2))[1]);
    }
}

} // verus!
