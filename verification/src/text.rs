//! Characters, digit runs, whitespace, and whitespace-separated tokens.
//!
//! Everything the endpoint grammar and the command gateway need to say about
//! raw text is defined here, over `Seq<char>`, together with the executable
//! counterparts proved against those definitions.

use vstd::prelude::*;

verus! {

/// A Unicode white-space character, the set that both token splitting and
/// trimming go by.
pub open spec fn is_space_char(c: char) -> bool {
    let u = c as u32;
    u == 0x20 || (0x09 <= u && u <= 0x0D) || u == 0x85 || u == 0xA0 || u == 0x1680 || (0x2000
        <= u && u <= 0x200A) || u == 0x2028 || u == 0x2029 || u == 0x202F || u == 0x205F || u
        == 0x3000
}

/// A decimal digit.
pub open spec fn is_digit_char(c: char) -> bool {
    0x30 <= c as u32 <= 0x39
}

/// A hexadecimal digit.
pub open spec fn is_hex_char(c: char) -> bool {
    is_digit_char(c) || (0x61 <= c as u32 <= 0x66) || (0x41 <= c as u32 <= 0x46)
}

pub open spec fn digit_val(c: char) -> int {
    c as u32 - 0x30
}

pub open spec fn all_digits(s: Seq<char>) -> bool {
    forall|i: int| 0 <= i < s.len() ==> is_digit_char(#[trigger] s[i])
}

pub open spec fn all_hex(s: Seq<char>) -> bool {
    forall|i: int| 0 <= i < s.len() ==> is_hex_char(#[trigger] s[i])
}

pub open spec fn all_spaces(s: Seq<char>) -> bool {
    forall|i: int| 0 <= i < s.len() ==> is_space_char(#[trigger] s[i])
}

/// The value of a run of decimal digits, most significant first.
pub open spec fn dec_value(s: Seq<char>) -> int
    decreases s.len(),
{
    if s.len() == 0 {
        0
    } else {
        dec_value(s.drop_last()) * 10 + digit_val(s.last())
    }
}

/// The index of the first occurrence of `c` in `s`, or -1 when absent.
pub open spec fn find_idx(s: Seq<char>, c: char) -> int
    decreases s.len(),
{
    if s.len() == 0 {
        -1
    } else if s[0] == c {
        0
    } else if find_idx(s.skip(1), c) < 0 {
        -1
    } else {
        1 + find_idx(s.skip(1), c)
    }
}

pub proof fn lemma_find_idx(s: Seq<char>, c: char)
    ensures
        -1 <= find_idx(s, c) < s.len(),
        find_idx(s, c) == -1 ==> forall|i: int| 0 <= i < s.len() ==> s[i] != c,
        find_idx(s, c) >= 0 ==> s[find_idx(s, c)] == c,
        find_idx(s, c) >= 0 ==> forall|i: int| 0 <= i < find_idx(s, c) ==> s[i] != c,
    decreases s.len(),
{
    if s.len() > 0 && s[0] != c {
        lemma_find_idx(s.skip(1), c);
        assert(forall|i: int| 1 <= i < s.len() ==> s[i] == s.skip(1)[i - 1]);
    }
}

/// The exact position where the first occurrence sits pins `find_idx` down.
pub proof fn lemma_find_idx_is_first(s: Seq<char>, c: char, i: int)
    requires
        0 <= i < s.len(),
        s[i] == c,
        forall|j: int| 0 <= j < i ==> s[j] != c,
    ensures
        find_idx(s, c) == i,
    decreases s.len(),
{
    if i > 0 {
        assert(forall|j: int| 0 <= j < i - 1 ==> s.skip(1)[j] == s[j + 1]);
        lemma_find_idx_is_first(s.skip(1), c, i - 1);
    }
}

/// The length of the leading run of non-space characters.
pub open spec fn token_len(s: Seq<char>) -> nat
    decreases s.len(),
{
    if s.len() == 0 || is_space_char(s[0]) {
        0
    } else {
        1 + token_len(s.skip(1))
    }
}

pub proof fn lemma_token_len(s: Seq<char>)
    ensures
        token_len(s) <= s.len(),
        forall|i: int| 0 <= i < token_len(s) ==> !is_space_char(s[i]),
        token_len(s) < s.len() ==> is_space_char(s[token_len(s) as int]),
    decreases s.len(),
{
    if s.len() > 0 && !is_space_char(s[0]) {
        lemma_token_len(s.skip(1));
        assert(forall|i: int| 1 <= i < s.len() ==> s[i] == s.skip(1)[i - 1]);
    }
}

/// The whitespace-separated tokens of `s`, in document order, empties dropped.
pub open spec fn ws_tokens(s: Seq<char>) -> Seq<Seq<char>>
    decreases s.len(),
    via ws_tokens_decreases
{
    if s.len() == 0 {
        Seq::empty()
    } else if is_space_char(s[0]) {
        ws_tokens(s.skip(1))
    } else {
        seq![s.take(token_len(s) as int)] + ws_tokens(s.skip(token_len(s) as int))
    }
}

#[via_fn]
proof fn ws_tokens_decreases(s: Seq<char>) {
    if s.len() > 0 && !is_space_char(s[0]) {
        lemma_token_len(s);
    }
}

/// The parts of `s` between occurrences of `c`, in order, empties kept:
/// splitting `"a::b"` on `':'` gives `["a", "", "b"]`.
pub open spec fn split_char(s: Seq<char>, c: char) -> Seq<Seq<char>>
    decreases s.len(),
    via split_char_decreases
{
    let i = find_idx(s, c);
    if i < 0 {
        seq![s]
    } else {
        seq![s.take(i)] + split_char(s.skip(i + 1), c)
    }
}

#[via_fn]
proof fn split_char_decreases(s: Seq<char>, c: char) {
    lemma_find_idx(s, c);
}

/// `find_idx`, executably: the first position of `c` in `v[start..end]`.
pub fn find_in(v: &Vec<char>, start: usize, end: usize, c: char) -> (r: Option<usize>)
    requires
        start <= end <= v@.len(),
    ensures
        match r {
            Some(p) => start <= p < end && find_idx(v@.subrange(start as int, end as int), c)
                == p - start,
            None => find_idx(v@.subrange(start as int, end as int), c) == -1,
        },
{
    let ghost s = v@.subrange(start as int, end as int);
    let mut i: usize = start;
    while i < end
        invariant
            start <= i <= end <= v@.len(),
            s == v@.subrange(start as int, end as int),
            forall|j: int| start <= j < i ==> v@[j] != c,
        decreases end - i,
    {
        if v[i] == c {
            proof {
                assert(forall|j: int| 0 <= j < i - start ==> s[j] == v@[j + start]);
                lemma_find_idx_is_first(s, c, i - start);
            }
            return Some(i);
        }
        i += 1;
    }
    proof {
        assert(forall|j: int| 0 <= j < s.len() ==> s[j] == v@[j + start]);
        lemma_find_idx(s, c);
        if find_idx(s, c) >= 0 {
            assert(s[find_idx(s, c)] == c);
        }
    }
    None
}

/// `split_char`, executably: the boundaries of each part of `v[start..end]`.
pub fn split_parts(v: &Vec<char>, start: usize, end: usize, c: char) -> (parts: Vec<
    (usize, usize),
>)
    requires
        start <= end <= v@.len(),
    ensures
        parts@.len() == split_char(v@.subrange(start as int, end as int), c).len(),
        forall|k: int|
            0 <= k < parts@.len() ==> start <= (#[trigger] parts@[k]).0 <= parts@[k].1 <= end
                && v@.subrange(parts@[k].0 as int, parts@[k].1 as int) == split_char(
                v@.subrange(start as int, end as int),
                c,
            )[k],
{
    let ghost whole = v@.subrange(start as int, end as int);
    let mut parts: Vec<(usize, usize)> = Vec::new();
    let mut cur: usize = start;
    let mut done = false;
    proof {
        assert(v@.subrange(cur as int, end as int) =~= whole);
    }
    while !done
        invariant
            start <= cur <= end <= v@.len(),
            whole == v@.subrange(start as int, end as int),
            !done ==> split_char(whole, c) == Seq::new(
                parts@.len(),
                |k: int| v@.subrange(parts@[k].0 as int, parts@[k].1 as int),
            ) + split_char(v@.subrange(cur as int, end as int), c),
            done ==> split_char(whole, c) == Seq::new(
                parts@.len(),
                |k: int| v@.subrange(parts@[k].0 as int, parts@[k].1 as int),
            ),
            forall|k: int|
                0 <= k < parts@.len() ==> start <= (#[trigger] parts@[k]).0 <= parts@[k].1
                    <= end,
        decreases end - cur + if done {
            0int
        } else {
            1int
        },
    {
        let ghost rest = v@.subrange(cur as int, end as int);
        let ghost old_parts = parts@;
        match find_in(v, cur, end, c) {
            Some(p) => {
                let ghost prev = cur as int;
                parts.push((cur, p));
                cur = p + 1;
                proof {
                    assert(rest.take(p - prev) =~= v@.subrange(prev, p as int));
                    assert(rest.skip(p - prev + 1) =~= v@.subrange(cur as int, end as int));
                    assert(Seq::new(
                        parts@.len(),
                        |k: int| v@.subrange(parts@[k].0 as int, parts@[k].1 as int),
                    ) =~= Seq::new(
                        old_parts.len(),
                        |k: int| v@.subrange(old_parts[k].0 as int, old_parts[k].1 as int),
                    ) + seq![v@.subrange(prev, p as int)]);
                }
            },
            None => {
                parts.push((cur, end));
                done = true;
                proof {
                    assert(split_char(rest, c) =~= seq![rest]);
                    assert(Seq::new(
                        parts@.len(),
                        |k: int| v@.subrange(parts@[k].0 as int, parts@[k].1 as int),
                    ) =~= Seq::new(
                        old_parts.len(),
                        |k: int| v@.subrange(old_parts[k].0 as int, old_parts[k].1 as int),
                    ) + seq![rest]);
                }
            },
        }
    }
    proof {
        assert(forall|k: int|
            0 <= k < parts@.len() ==> split_char(whole, c)[k] == Seq::new(
                parts@.len(),
                |j: int| v@.subrange(parts@[j].0 as int, parts@[j].1 as int),
            )[k]);
    }
    parts
}

/// `s` with its leading white space dropped.
pub open spec fn trim_start(s: Seq<char>) -> Seq<char>
    decreases s.len(),
{
    if s.len() > 0 && is_space_char(s[0]) {
        trim_start(s.skip(1))
    } else {
        s
    }
}

/// `s` with its trailing white space dropped.
pub open spec fn trim_end(s: Seq<char>) -> Seq<char>
    decreases s.len(),
{
    if s.len() > 0 && is_space_char(s.last()) {
        trim_end(s.drop_last())
    } else {
        s
    }
}

/// `s` with white space dropped from both ends.
pub open spec fn trimmed(s: Seq<char>) -> Seq<char> {
    trim_end(trim_start(s))
}

/// The characters of a string, as a vector indexed in character positions.
pub fn chars_vec(s: &str) -> (v: Vec<char>)
    ensures
        v@ == s@,
{
    let n = s.unicode_len();
    let mut v: Vec<char> = Vec::new();
    let mut i: usize = 0;
    while i < n
        invariant
            n == s@.len(),
            i <= n,
            v@ == s@.take(i as int),
        decreases n - i,
    {
        v.push(s.get_char(i));
        proof {
            assert(v@ =~= s@.take(i + 1));
        }
        i += 1;
    }
    proof {
        assert(v@ =~= s@);
    }
    v
}

pub fn is_space(c: char) -> (r: bool)
    ensures
        r == is_space_char(c),
{
    let u = c as u32;
    u == 0x20 || (0x09 <= u && u <= 0x0D) || u == 0x85 || u == 0xA0 || u == 0x1680 || (0x2000
        <= u && u <= 0x200A) || u == 0x2028 || u == 0x2029 || u == 0x202F || u == 0x205F || u
        == 0x3000
}

pub fn is_digit(c: char) -> (r: bool)
    ensures
        r == is_digit_char(c),
{
    let u = c as u32;
    0x30 <= u && u <= 0x39
}

pub fn is_hex(c: char) -> (r: bool)
    ensures
        r == is_hex_char(c),
{
    let u = c as u32;
    (0x30 <= u && u <= 0x39) || (0x61 <= u && u <= 0x66) || (0x41 <= u && u <= 0x46)
}

/// The trimmed middle of `v`, as the position right after the leading white
/// space and the position right after the last non-space character.
pub fn trim_bounds(v: &Vec<char>) -> (r: (usize, usize))
    ensures
        r.0 <= r.1 <= v@.len(),
        v@.subrange(r.0 as int, r.1 as int) == trimmed(v@),
{
    let n = v.len();
    let mut a: usize = 0;
    proof {
        assert(v@.skip(0) =~= v@);
    }
    while a < n && is_space(v[a])
        invariant
            a <= n == v@.len(),
            trim_start(v@) == trim_start(v@.skip(a as int)),
        decreases n - a,
    {
        proof {
            assert(v@.skip(a as int).skip(1) =~= v@.skip(a + 1));
        }
        a += 1;
    }
    proof {
        assert(v@.skip(a as int).len() > 0 ==> v@.skip(a as int)[0] == v@[a as int]);
        assert(trim_start(v@) == v@.skip(a as int));
        assert(v@.skip(a as int) =~= v@.subrange(a as int, n as int));
    }
    let mut b: usize = n;
    while b > a && is_space(v[b - 1])
        invariant
            a <= b <= n == v@.len(),
            trim_start(v@) == v@.skip(a as int),
            trim_end(v@.skip(a as int)) == trim_end(v@.subrange(a as int, b as int)),
        decreases b,
    {
        proof {
            let cur = v@.subrange(a as int, b as int);
            assert(cur.last() == v@[b - 1]);
            assert(cur.drop_last() =~= v@.subrange(a as int, b - 1));
        }
        b -= 1;
    }
    proof {
        let cur = v@.subrange(a as int, b as int);
        if b > a {
            assert(cur.last() == v@[b - 1]);
        }
        assert(trim_end(cur) == cur);
        assert(v@.skip(a as int) =~= v@.subrange(a as int, n as int));
    }
    (a, b)
}

} // verus!
