//! Splitting and searching the text of requests, over their characters.
use vstd::prelude::*;
use vstd::string::StrSliceExecFns;
use vstd::std_specs::iter::IteratorSpec;

verus! {

broadcast use vstd::string::group_string_axioms;

/// The upper-case form of a text, as `str::to_uppercase` computes it.
pub uninterp spec fn str_to_uppercase(s: Seq<char>) -> Seq<char>;

/// Whether every character of a text is ASCII.
pub open spec fn all_ascii(s: Seq<char>) -> bool {
    forall|i: int| 0 <= i < s.len() ==> (#[trigger] s[i] as u32) < 128
}

/// An ASCII character in upper case: `a` to `z` become `A` to `Z`.
pub open spec fn ascii_upper(c: char) -> char {
    if 'a' <= c <= 'z' { ((c as u32) - 32) as char } else { c }
}

/// An ASCII character in lower case: `A` to `Z` become `a` to `z`.
pub open spec fn ascii_lower(c: char) -> char {
    if 'A' <= c <= 'Z' { ((c as u32) + 32) as char } else { c }
}

/// std's `str::to_uppercase`: its result is named `str_to_uppercase`, which
/// maps each character by Unicode's upper-case mapping (a character may map to
/// several); the mapping is written out here for ASCII text only, where it
/// raises `a` to `z` and keeps every other character.
#[verifier::external_body]
pub(crate) fn to_uppercase(s: &str) -> (r: String)
    ensures
        r@ == str_to_uppercase(s@),
        all_ascii(s@) ==> r@ == s@.map_values(|c: char| ascii_upper(c)),
{
    s.to_uppercase()
}

/// The lower-case form of a text, as `str::to_lowercase` computes it.
pub uninterp spec fn str_to_lowercase(s: Seq<char>) -> Seq<char>;

/// std's `str::to_lowercase`: its result is named `str_to_lowercase`, which
/// maps each character by Unicode's lower-case mapping (a character may map to
/// several); the mapping is written out here for ASCII text only, where it
/// lowers `A` to `Z` and keeps every other character.
#[verifier::external_body]
pub(crate) fn to_lowercase(s: &str) -> (r: String)
    ensures
        r@ == str_to_lowercase(s@),
        all_ascii(s@) ==> r@ == s@.map_values(|c: char| ascii_lower(c)),
{
    s.to_lowercase()
}

/// The characters of a text, in order.
pub fn chars_of(s: &str) -> (r: Vec<char>)
    ensures
        r@ == s@,
{
    let mut r: Vec<char> = Vec::new();
    let mut it = s.chars();
    loop
        invariant
            r@.len() <= s@.len(),
            r@ == s@.take(r@.len() as int),
            it.remaining() == s@.skip(r@.len() as int),
            it.obeys_prophetic_iter_laws(),
        ensures
            r@ == s@,
        decreases s@.len() - r@.len(),
    {
        match it.next() {
            Some(c) => {
                proof {
                    assert(s@.skip(r@.len() as int)[0] == s@[r@.len() as int]);
                    assert(s@.skip(r@.len() as int).drop_first() =~= s@.skip(r@.len() as int + 1));
                }
                r.push(c);
                proof {
                    assert(r@ =~= s@.take(r@.len() as int));
                }
            },
            None => {
                proof {
                    assert(s@.take(r@.len() as int) =~= s@);
                }
                break;
            },
        }
    }
    r
}

/// The position of the first `c` in `s` from position `i` on (`s.len()` when
/// there is none).
pub open spec fn first_of(s: Seq<char>, c: char, i: int) -> int
    decreases s.len() - i,
{
    if i < 0 || i >= s.len() {
        s.len() as int
    } else if s[i] == c {
        i
    } else {
        first_of(s, c, i + 1)
    }
}

pub proof fn lemma_first_of_bounds(s: Seq<char>, c: char, i: int)
    requires
        0 <= i <= s.len(),
    ensures
        i <= first_of(s, c, i) <= s.len(),
        first_of(s, c, i) < s.len() ==> s[first_of(s, c, i)] == c,
        forall|j: int| i <= j < first_of(s, c, i) ==> s[j] != c,
    decreases s.len() - i,
{
    if i < s.len() {
        lemma_first_of_bounds(s, c, i + 1);
    }
}

/// The first `c` in `v` from position `from` on.
pub fn find_char(v: &Vec<char>, c: char, from: usize) -> (r: usize)
    requires
        from <= v.len(),
    ensures
        r == first_of(v@, c, from as int),
{
    let mut i = from;
    while i < v.len()
        invariant
            from <= i <= v.len(),
            first_of(v@, c, from as int) == first_of(v@, c, i as int),
        decreases v.len() - i,
    {
        if v[i] == c {
            return i;
        }
        i = i + 1;
    }
    i
}

/// The pieces of `s` that `splitn(3, ' ')` gives: the text before the first
/// space, the text between the first and second space, and the rest.
pub open spec fn splitn3(s: Seq<char>) -> Seq<Seq<char>> {
    let a = first_of(s, ' ', 0);
    if a >= s.len() {
        seq![s]
    } else {
        let b = first_of(s, ' ', a + 1);
        if b >= s.len() {
            seq![s.subrange(0, a), s.subrange(a + 1, s.len() as int)]
        } else {
            seq![s.subrange(0, a), s.subrange(a + 1, b), s.subrange(b + 1, s.len() as int)]
        }
    }
}

pub open spec fn views_of(v: Seq<&str>) -> Seq<Seq<char>> {
    v.map_values(|x: &str| x@)
}

/// Splits a request into at most three pieces at its first two spaces.
pub fn split_message<'a>(msg: &'a str) -> (r: Vec<&'a str>)
    ensures
        views_of(r@) == splitn3(msg@),
        1 <= r@.len() <= 3,
{
    let v = chars_of(msg);
    let n = v.len();
    let a = find_char(&v, ' ', 0);
    proof {
        lemma_first_of_bounds(v@, ' ', 0);
    }
    let mut r: Vec<&'a str> = Vec::new();
    if a >= n {
        r.push(msg);
        proof {
            assert(views_of(r@) =~= splitn3(msg@));
        }
        return r;
    }
    let b = find_char(&v, ' ', a + 1);
    proof {
        lemma_first_of_bounds(v@, ' ', a + 1);
    }
    r.push(msg.substring_char(0, a));
    if b >= n {
        r.push(msg.substring_char(a + 1, n));
    } else {
        r.push(msg.substring_char(a + 1, b));
        r.push(msg.substring_char(b + 1, n));
    }
    proof {
        assert(views_of(r@) =~= splitn3(msg@));
    }
    r
}

/// The pieces of `s` from position `i` on, cut at every `c` (as `split(c)`
/// cuts them: `k` separators give `k + 1` pieces, some of them empty).
pub open spec fn split_from(s: Seq<char>, c: char, i: int) -> Seq<Seq<char>>
    decreases s.len() - i,
    when 0 <= i <= s.len()
{
    let j = first_of(s, c, i);
    if j >= s.len() {
        seq![s.subrange(i, s.len() as int)]
    } else {
        proof {
            lemma_first_of_bounds(s, c, i);
        }
        seq![s.subrange(i, j)] + split_from(s, c, j + 1)
    }
}

/// Cuts `s` at every `c`.
pub fn split_on<'a>(s: &'a str, c: char) -> (r: Vec<&'a str>)
    ensures
        views_of(r@) == split_from(s@, c, 0),
{
    let v = chars_of(s);
    let n = v.len();
    let mut r: Vec<&'a str> = Vec::new();
    let mut i: usize = 0;
    proof {
        assert(Seq::<Seq<char>>::empty() + split_from(s@, c, 0) =~= split_from(s@, c, 0));
    }
    loop
        invariant_except_break
            views_of(r@) + split_from(s@, c, i as int) == split_from(s@, c, 0),
        invariant
            v@ == s@,
            n == v.len(),
            i <= n,
        ensures
            views_of(r@) == split_from(s@, c, 0),
        decreases n - i,
    {
        let j = find_char(&v, c, i);
        proof {
            lemma_first_of_bounds(v@, c, i as int);
        }
        if j >= n {
            let ghost before = r@;
            r.push(s.substring_char(i, n));
            proof {
                assert(views_of(r@) =~= views_of(before) + split_from(s@, c, i as int));
            }
            break;
        }
        let ghost before = r@;
        r.push(s.substring_char(i, j));
        proof {
            assert(split_from(s@, c, i as int) == seq![s@.subrange(i as int, j as int)] + split_from(s@, c, j + 1));
            assert(views_of(r@) =~= views_of(before).push(s@.subrange(i as int, j as int)));
            assert(views_of(r@) + split_from(s@, c, j + 1) =~= views_of(before) + split_from(s@, c, i as int));
        }
        i = j + 1;
    }
    r
}

/// Whether `s` begins with `prefix`.
pub open spec fn has_prefix(s: Seq<char>, prefix: Seq<char>) -> bool {
    prefix.len() <= s.len() && s.subrange(0, prefix.len() as int) == prefix
}

/// Whether `s` holds `pat` somewhere.
pub open spec fn contains_text(s: Seq<char>, pat: Seq<char>) -> bool {
    exists|i: int| 0 <= i && i + pat.len() <= s.len() && #[trigger] s.subrange(i, i + pat.len()) == pat
}

/// Whether the characters of `v` from position `at` on begin with those of `pat`.
fn matches_at(v: &Vec<char>, pat: &Vec<char>, at: usize) -> (r: bool)
    requires
        at + pat.len() <= v.len(),
    ensures
        r == (v@.subrange(at as int, at + pat.len()) == pat@),
{
    let mut k: usize = 0;
    while k < pat.len()
        invariant
            k <= pat.len(),
            at + pat.len() <= v.len(),
            forall|j: int| 0 <= j < k ==> v@[at + j] == pat@[j],
        decreases pat.len() - k,
    {
        if v[at + k] != pat[k] {
            proof {
                assert(v@.subrange(at as int, at + pat.len())[k as int] != pat@[k as int]);
            }
            return false;
        }
        k = k + 1;
    }
    proof {
        assert(v@.subrange(at as int, at + pat.len()) =~= pat@);
    }
    true
}

/// Whether `s` begins with `prefix`.
pub fn starts_with(s: &str, prefix: &str) -> (r: bool)
    ensures
        r == has_prefix(s@, prefix@),
{
    let v = chars_of(s);
    let p = chars_of(prefix);
    if p.len() > v.len() {
        return false;
    }
    matches_at(&v, &p, 0)
}

/// Whether `s` holds `pat` somewhere.
pub fn contains(s: &str, pat: &str) -> (r: bool)
    ensures
        r == contains_text(s@, pat@),
{
    let v = chars_of(s);
    let p = chars_of(pat);
    if p.len() > v.len() {
        return false;
    }
    if p.len() == 0 {
        proof {
            assert(s@.subrange(0int, 0int + pat@.len()) =~= pat@);
        }
        return true;
    }
    let mut i: usize = 0;
    let last = v.len() - p.len();
    while i <= last
        invariant
            v@ == s@,
            p@ == pat@,
            p.len() <= v.len(),
            last == v.len() - p.len(),
            p.len() > 0,
            i <= last + 1,
            forall|j: int| 0 <= j < i ==> #[trigger] s@.subrange(j, j + pat@.len()) != pat@,
        decreases last + 1 - i,
    {
        if matches_at(&v, &p, i) {
            return true;
        }
        i = i + 1;
    }
    false
}


/// The character of a decimal digit.
pub open spec fn digit_char(d: int) -> char {
    if d == 0 { '0' } else if d == 1 { '1' } else if d == 2 { '2' } else if d == 3 { '3' }
    else if d == 4 { '4' } else if d == 5 { '5' } else if d == 6 { '6' } else if d == 7 { '7' }
    else if d == 8 { '8' } else { '9' }
}

/// The decimal digits of `n`, most significant first, as `to_string` writes
/// an unsigned integer.
pub open spec fn decimal(n: nat) -> Seq<char>
    decreases n,
{
    if n < 10 {
        seq![digit_char(n as int)]
    } else {
        decimal(n / 10).push(digit_char((n % 10) as int))
    }
}

fn digit_text(d: u64) -> (r: &'static str)
    requires
        d < 10,
    ensures
        r@ == seq![digit_char(d as int)],
{
    proof {
        reveal_strlit("0");
        reveal_strlit("1");
        reveal_strlit("2");
        reveal_strlit("3");
        reveal_strlit("4");
        reveal_strlit("5");
        reveal_strlit("6");
        reveal_strlit("7");
        reveal_strlit("8");
        reveal_strlit("9");
    }
    let r = match d {
        0 => "0",
        1 => "1",
        2 => "2",
        3 => "3",
        4 => "4",
        5 => "5",
        6 => "6",
        7 => "7",
        8 => "8",
        _ => "9",
    };
    assert(r@ =~= seq![digit_char(d as int)]);
    r
}

/// The decimal text of `n`.
pub fn decimal_text(n: u64) -> (r: String)
    ensures
        r@ == decimal(n as nat),
    decreases n,
{
    if n < 10 {
        String::from_str(digit_text(n))
    } else {
        let r = decimal_text(n / 10).concat(digit_text(n % 10));
        assert(r@ =~= decimal(n as nat));
        r
    }
}

proof fn lemma_decimal_nonempty(n: nat)
    ensures
        decimal(n).len() >= 1,
        n >= 10 ==> decimal(n).len() >= 2,
    decreases n,
{
    if n >= 10 {
        lemma_decimal_nonempty(n / 10);
    }
}

proof fn lemma_digit_char_injective(a: int, b: int)
    requires
        0 <= a < 10,
        0 <= b < 10,
        digit_char(a) == digit_char(b),
    ensures
        a == b,
{
}

/// Different numbers have different decimal texts.
pub proof fn lemma_decimal_injective(a: nat, b: nat)
    requires
        decimal(a) == decimal(b),
    ensures
        a == b,
    decreases a,
{
    lemma_decimal_nonempty(a);
    lemma_decimal_nonempty(b);
    if a < 10 && b < 10 {
        assert(decimal(a)[0] == digit_char(a as int));
        assert(decimal(b)[0] == digit_char(b as int));
        lemma_digit_char_injective(a as int, b as int);
    } else if a >= 10 && b >= 10 {
        assert(decimal(a).last() == digit_char((a % 10) as int));
        assert(decimal(b).last() == digit_char((b % 10) as int));
        lemma_digit_char_injective((a % 10) as int, (b % 10) as int);
        assert(decimal(a).drop_last() =~= decimal(a / 10));
        assert(decimal(b).drop_last() =~= decimal(b / 10));
        lemma_decimal_injective(a / 10, b / 10);
    }
}

} // verus!
