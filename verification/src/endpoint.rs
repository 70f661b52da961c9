//! The endpoint parser.
//!
//! Raw, possibly multi-line, whitespace-padded text is scanned for the first
//! token that reads as a network endpoint: IPv4 `a.b.c.d:port` or bracketed
//! IPv6 `[addr]:port`.  The grammar is defined here over `Seq<char>`, and the
//! executable parser is proved to return exactly the first token in document
//! order that conforms to it.

use vstd::prelude::*;

use crate::command::Error;
use crate::text::all_digits;
use crate::text::all_hex;
use crate::text::chars_vec;
use crate::text::dec_value;
use crate::text::find_idx;
use crate::text::find_in;
use crate::text::is_digit;
use crate::text::is_hex;
use crate::text::is_hex_char;
use crate::text::is_space;
use crate::text::lemma_find_idx;
use crate::text::split_char;
use crate::text::split_parts;
use crate::text::token_len;
use crate::text::ws_tokens;
use vstd::string::StrSliceExecFns;
use vstd::string::StringExecFns;

verus! {

/// A valid decimal port: at least one digit, value at most 65535.
pub open spec fn valid_port(s: Seq<char>) -> bool {
    s.len() >= 1 && all_digits(s) && dec_value(s) <= 65535
}

/// One dotted-quad part: one to three digits, no leading zero, at most 255.
pub open spec fn valid_octet(s: Seq<char>) -> bool {
    1 <= s.len() <= 3 && all_digits(s) && (s.len() == 1 || s[0] != '0') && dec_value(s) <= 255
}

/// `n` octets separated by dots, scanned left to right; a valid octet holds
/// no dot, so the first dot is the only possible boundary.
pub open spec fn dotted_octets(s: Seq<char>, n: nat) -> bool
    decreases n,
{
    if n <= 1 {
        valid_octet(s)
    } else {
        let i = find_idx(s, '.');
        0 <= i && valid_octet(s.take(i)) && dotted_octets(s.skip(i + 1), (n - 1) as nat)
    }
}

/// IPv4 address text: a dotted quad.
pub open spec fn valid_ipv4(s: Seq<char>) -> bool {
    dotted_octets(s, 4)
}

/// One IPv6 group: one to four hexadecimal digits.
pub open spec fn valid_group(s: Seq<char>) -> bool {
    1 <= s.len() <= 4 && all_hex(s)
}

/// The first index holding an empty part, or -1 when none does.
pub open spec fn first_empty(p: Seq<Seq<char>>) -> int
    decreases p.len(),
{
    if p.len() == 0 {
        -1
    } else if p[0].len() == 0 {
        0
    } else if first_empty(p.skip(1)) < 0 {
        -1
    } else {
        1 + first_empty(p.skip(1))
    }
}

/// The last index holding an empty part, or -1 when none does.
pub open spec fn last_empty(p: Seq<Seq<char>>) -> int
    decreases p.len(),
{
    if p.len() == 0 {
        -1
    } else if p[p.len() - 1].len() == 0 {
        p.len() - 1
    } else {
        last_empty(p.drop_last())
    }
}

pub proof fn lemma_first_empty(p: Seq<Seq<char>>)
    ensures
        -1 <= first_empty(p) < p.len(),
        first_empty(p) == -1 ==> forall|k: int| 0 <= k < p.len() ==> (#[trigger] p[k]).len() > 0,
        first_empty(p) >= 0 ==> p[first_empty(p)].len() == 0,
        first_empty(p) >= 0 ==> forall|k: int|
            0 <= k < first_empty(p) ==> (#[trigger] p[k]).len() > 0,
    decreases p.len(),
{
    if p.len() > 0 && p[0].len() > 0 {
        lemma_first_empty(p.skip(1));
        assert(forall|k: int| 1 <= k < p.len() ==> p[k] == p.skip(1)[k - 1]);
    }
}

pub proof fn lemma_last_empty(p: Seq<Seq<char>>)
    ensures
        -1 <= last_empty(p) < p.len(),
        last_empty(p) == -1 ==> forall|k: int| 0 <= k < p.len() ==> (#[trigger] p[k]).len() > 0,
        last_empty(p) >= 0 ==> p[last_empty(p)].len() == 0,
        last_empty(p) >= 0 ==> forall|k: int|
            last_empty(p) < k < p.len() ==> (#[trigger] p[k]).len() > 0,
    decreases p.len(),
{
    if p.len() > 0 && p[p.len() - 1].len() > 0 {
        lemma_last_empty(p.drop_last());
        assert(forall|k: int| 0 <= k < p.len() - 1 ==> p[k] == p.drop_last()[k]);
    }
}

/// IPv6 address text, bracket-less: eight hexadecimal groups separated by
/// colons, or fewer with exactly one `::` standing for the missing groups.
pub open spec fn valid_ipv6(s: Seq<char>) -> bool {
    let p = split_char(s, ':');
    let n = p.len() as int;
    let f = first_empty(p);
    let l = last_empty(p);
    if f < 0 {
        n == 8 && (forall|k: int| 0 <= k < n ==> valid_group(#[trigger] p[k]))
    } else {
        (forall|k: int| f <= k <= l ==> (#[trigger] p[k]).len() == 0) && (forall|k: int|
            0 <= k < n && !(f <= k <= l) ==> valid_group(#[trigger] p[k])) && (if f == 0 && l == n
            - 1 {
            n == 3
        } else if f == 0 {
            l == 1
        } else if l == n - 1 {
            f == n - 2
        } else {
            l == f
        }) && n - (l - f + 1) <= 7
    }
}

/// The value of a digit run never shrinks as the run grows.
proof fn lemma_dec_value_nonneg(s: Seq<char>)
    requires
        all_digits(s),
    ensures
        dec_value(s) >= 0,
    decreases s.len(),
{
    if s.len() > 0 {
        assert(forall|i: int| 0 <= i < s.len() - 1 ==> s.drop_last()[i] == s[i]);
        lemma_dec_value_nonneg(s.drop_last());
    }
}

proof fn lemma_dec_value_mono(s: Seq<char>, k: int)
    requires
        0 <= k <= s.len(),
        all_digits(s),
    ensures
        dec_value(s) >= dec_value(s.take(k)),
    decreases s.len() - k,
{
    assert(forall|i: int| 0 <= i < k ==> s.take(k)[i] == s[i]);
    if k == s.len() {
        assert(s.take(k) =~= s);
    } else {
        assert(s.take(k + 1).drop_last() =~= s.take(k));
        assert(s.take(k + 1).last() == s[k]);
        lemma_dec_value_nonneg(s.take(k));
        lemma_dec_value_mono(s, k + 1);
    }
}

/// The decimal value of `v[start..end]`, when it is a digit run that fits a
/// port, and nothing otherwise.
fn dec_run_value(v: &Vec<char>, start: usize, end: usize) -> (r: Option<u32>)
    requires
        start <= end <= v@.len(),
    ensures
        ({
            let s = v@.subrange(start as int, end as int);
            match r {
                Some(x) => valid_port(s) && x == dec_value(s),
                None => !valid_port(s),
            }
        }),
{
    let ghost s = v@.subrange(start as int, end as int);
    proof {
        assert(forall|j: int| 0 <= j < s.len() ==> s[j] == v@[j + start]);
    }
    if start == end {
        return None;
    }
    let mut val: u32 = 0;
    let mut i: usize = start;
    while i < end
        invariant
            start <= i <= end <= v@.len(),
            s == v@.subrange(start as int, end as int),
            forall|j: int| 0 <= j < s.len() ==> s[j] == v@[j + start],
            all_digits(s.take(i - start)),
            val == dec_value(s.take(i - start)),
            val <= 65535,
        decreases end - i,
    {
        let c = v[i];
        proof {
            assert(s[i - start] == v@[i as int]);
            assert(s.take(i - start + 1).drop_last() =~= s.take(i - start));
            assert(s.take(i - start + 1).last() == s[i - start]);
        }
        if !is_digit(c) {
            return None;
        }
        let d = (c as u32) - 0x30;
        let nv = val * 10 + d;
        if nv > 65535 {
            proof {
                if all_digits(s) {
                    lemma_dec_value_mono(s, i - start + 1);
                }
            }
            return None;
        }
        val = nv;
        i += 1;
    }
    proof {
        assert(s.take(end - start) =~= s);
    }
    Some(val)
}

/// Whether `v[start..end]` is a valid dotted-quad octet.
fn check_octet(v: &Vec<char>, start: usize, end: usize) -> (r: bool)
    requires
        start <= end <= v@.len(),
    ensures
        r == valid_octet(v@.subrange(start as int, end as int)),
{
    let ghost s = v@.subrange(start as int, end as int);
    let len = end - start;
    if len < 1 || len > 3 {
        return false;
    }
    if len > 1 && v[start] == '0' {
        proof {
            assert(s[0] == v@[start as int]);
        }
        return false;
    }
    proof {
        assert(s[0] == v@[start as int]);
    }
    match dec_run_value(v, start, end) {
        None => false,
        Some(x) => x <= 255,
    }
}

/// Whether `v[start..end]` is `n` dot-separated octets.
fn check_dotted(v: &Vec<char>, start: usize, end: usize, n: u8) -> (r: bool)
    requires
        start <= end <= v@.len(),
        1 <= n <= 4,
    ensures
        r == dotted_octets(v@.subrange(start as int, end as int), n as nat),
    decreases n,
{
    let ghost s = v@.subrange(start as int, end as int);
    if n == 1 {
        return check_octet(v, start, end);
    }
    match find_in(v, start, end, '.') {
        None => false,
        Some(p) => {
            proof {
                assert(s.take(p - start) =~= v@.subrange(start as int, p as int));
                assert(s.skip(p - start + 1) =~= v@.subrange(p + 1, end as int));
            }
            if check_octet(v, start, p) {
                check_dotted(v, p + 1, end, n - 1)
            } else {
                false
            }
        },
    }
}

/// Whether `v[start..end]` is a valid IPv6 group.
fn check_group(v: &Vec<char>, start: usize, end: usize) -> (r: bool)
    requires
        start <= end <= v@.len(),
    ensures
        r == valid_group(v@.subrange(start as int, end as int)),
{
    let ghost s = v@.subrange(start as int, end as int);
    proof {
        assert(forall|j: int| 0 <= j < s.len() ==> s[j] == v@[j + start]);
    }
    let len = end - start;
    if len < 1 || len > 4 {
        return false;
    }
    let mut i: usize = start;
    while i < end
        invariant
            start <= i <= end <= v@.len(),
            s == v@.subrange(start as int, end as int),
            forall|j: int| 0 <= j < s.len() ==> s[j] == v@[j + start],
            forall|j: int| 0 <= j < i - start ==> is_hex_char(#[trigger] s[j]),
        decreases end - i,
    {
        if !is_hex(v[i]) {
            proof {
                assert(!is_hex_char(s[i - start]));
            }
            return false;
        }
        i += 1;
    }
    true
}

/// Whether `v[start..end]` is IPv6 address text.
fn check_ipv6(v: &Vec<char>, start: usize, end: usize) -> (r: bool)
    requires
        start <= end <= v@.len(),
    ensures
        r == valid_ipv6(v@.subrange(start as int, end as int)),
{
    let ghost s = v@.subrange(start as int, end as int);
    let ghost p = split_char(s, ':');
    let parts = split_parts(v, start, end, ':');
    let n = parts.len();
    proof {
        lemma_first_empty(p);
        lemma_last_empty(p);
        assert(forall|k: int|
            0 <= k < n ==> (#[trigger] p[k]).len() == parts@[k].1 - parts@[k].0);
    }
    // The first part boundary pair that is empty, if any.
    let mut f: usize = 0;
    while f < n && parts[f].1 > parts[f].0
        invariant
            f <= n == parts@.len(),
            forall|k: int| 0 <= k < f ==> (#[trigger] p[k]).len() > 0,
            p == split_char(s, ':'),
            forall|k: int|
                0 <= k < n ==> (#[trigger] p[k]).len() == parts@[k].1 - parts@[k].0,
        decreases n - f,
    {
        f += 1;
    }
    if f == n {
        // No empty part, so no `::`: exactly eight plain groups.
        proof {
            assert(first_empty(p) == -1);
        }
        if n != 8 {
            return false;
        }
        let mut k: usize = 0;
        while k < 8
            invariant
                k <= 8,
                start <= end <= v@.len(),
                n == 8 == parts@.len(),
                p.len() == parts@.len(),
                s == v@.subrange(start as int, end as int),
                p == split_char(s, ':'),
                first_empty(p) == -1,
                forall|j: int|
                    0 <= j < parts@.len() ==> start <= (#[trigger] parts@[j]).0 <= parts@[j].1
                        <= end && v@.subrange(parts@[j].0 as int, parts@[j].1 as int) == p[j],
                forall|j: int| 0 <= j < k ==> valid_group(#[trigger] p[j]),
            decreases 8 - k,
        {
            let (a, b) = parts[k];
            if !check_group(v, a, b) {
                return false;
            }
            k += 1;
        }
        return true;
    }
    // `parts[f]` is the first empty part; find the last one.
    let mut l: usize = n;
    while l > 0 && parts[l - 1].1 > parts[l - 1].0
        invariant
            l <= n == parts@.len(),
            forall|k: int| l <= k < n ==> (#[trigger] p[k]).len() > 0,
            p == split_char(s, ':'),
            forall|k: int|
                0 <= k < n ==> (#[trigger] p[k]).len() == parts@[k].1 - parts@[k].0,
        decreases l,
    {
        l -= 1;
    }
    proof {
        assert(p[f as int].len() == 0);
        assert(first_empty(p) == f);
        assert(l >= f + 1);
        assert(last_empty(p) == l - 1);
    }
    let le = l - 1;
    let shape_ok = if f == 0 && le == n - 1 {
        n == 3
    } else if f == 0 {
        le == 1
    } else if le == n - 1 {
        f == n - 2
    } else {
        le == f
    };
    if !shape_ok {
        return false;
    }
    if n - (le - f + 1) > 7 {
        return false;
    }
    // Every part inside the gap must be empty.
    let mut k: usize = f;
    while k <= le
        invariant
            f <= k <= le + 1 <= n == parts@.len(),
            start <= end <= v@.len(),
            p.len() == parts@.len(),
            s == v@.subrange(start as int, end as int),
            p == split_char(s, ':'),
            first_empty(p) == f,
            last_empty(p) == le,
            forall|j: int| f <= j < k ==> (#[trigger] p[j]).len() == 0,
            forall|j: int|
                0 <= j < n ==> (#[trigger] p[j]).len() == parts@[j].1 - parts@[j].0,
        decreases le + 1 - k,
    {
        if parts[k].1 > parts[k].0 {
            proof {
                assert(p[k as int].len() > 0);
            }
            return false;
        }
        k += 1;
    }
    // Every part outside the gap must be a valid group.
    let mut k: usize = 0;
    while k < n
        invariant
            k <= n == parts@.len(),
            start <= end <= v@.len(),
            p.len() == parts@.len(),
            f <= le < n,
            n - (le - f + 1) <= 7,
            s == v@.subrange(start as int, end as int),
            p == split_char(s, ':'),
            first_empty(p) == f,
            last_empty(p) == le,
            forall|j: int|
                0 <= j < parts@.len() ==> start <= (#[trigger] parts@[j]).0 <= parts@[j].1
                    <= end && v@.subrange(parts@[j].0 as int, parts@[j].1 as int) == p[j],
            forall|j: int| 0 <= j < k && !(f <= j <= le) ==> valid_group(#[trigger] p[j]),
        decreases n - k,
    {
        if k < f || k > le {
            let (a, b) = parts[k];
            if !check_group(v, a, b) {
                return false;
            }
        }
        k += 1;
    }
    true
}

/// The mathematical content of an endpoint: host text, port value, family.
pub ghost struct EndpointModel {
    pub host: Seq<char>,
    pub port: int,
    pub v6: bool,
}

/// The endpoint a single token denotes, if any.  A bracketed token is split
/// at its first `]`, which valid IPv6 text cannot contain; anything else is
/// split at its first `:`, which a valid dotted quad cannot contain.
pub open spec fn token_endpoint(t: Seq<char>) -> Option<EndpointModel> {
    if t.len() > 0 && t[0] == '[' {
        let j = find_idx(t, ']');
        if j >= 0 && j + 1 < t.len() && t[j + 1] == ':' && valid_ipv6(t.subrange(1, j))
            && valid_port(t.skip(j + 2)) {
            Some(
                EndpointModel {
                    host: t.subrange(1, j),
                    port: dec_value(t.skip(j + 2)),
                    v6: true,
                },
            )
        } else {
            None
        }
    } else {
        let i = find_idx(t, ':');
        if i >= 0 && valid_ipv4(t.take(i)) && valid_port(t.skip(i + 1)) {
            Some(EndpointModel { host: t.take(i), port: dec_value(t.skip(i + 1)), v6: false })
        } else {
            None
        }
    }
}

/// The first token, in order, that denotes an endpoint.
pub open spec fn first_token_endpoint(toks: Seq<Seq<char>>) -> Option<EndpointModel>
    decreases toks.len(),
{
    if toks.len() == 0 {
        None
    } else if token_endpoint(toks[0]) is Some {
        token_endpoint(toks[0])
    } else {
        first_token_endpoint(toks.skip(1))
    }
}

/// The endpoint that loosely formatted text denotes: that of the first
/// whitespace-separated token in document order that reads as one.
pub open spec fn first_endpoint(s: Seq<char>) -> Option<EndpointModel> {
    first_token_endpoint(ws_tokens(s))
}

/// A validated network endpoint: host text and port, IPv4 or IPv6.
#[derive(Debug)]
pub struct Endpoint {
    host: String,
    port: u16,
    v6: bool,
}

impl View for Endpoint {
    type V = EndpointModel;

    closed spec fn view(&self) -> EndpointModel {
        EndpointModel { host: self.host@, port: self.port as int, v6: self.v6 }
    }
}

/// The display text of an endpoint: `host:port`, the host re-bracketed for
/// IPv6.
pub open spec fn endpoint_text(e: EndpointModel) -> Seq<char> {
    if e.v6 {
        seq!['['] + e.host + seq![']', ':'] + dec_digits(e.port)
    } else {
        e.host + seq![':'] + dec_digits(e.port)
    }
}

/// The character of one decimal digit.
pub open spec fn digit_char(d: int) -> char {
    ((0x30 + d) as u8) as char
}

/// The decimal digits of `n`, most significant first, no leading zeros.
pub open spec fn dec_digits(n: int) -> Seq<char>
    decreases n,
{
    if n < 10 {
        seq![digit_char(n)]
    } else {
        dec_digits(n / 10) + seq![digit_char(n % 10)]
    }
}

impl Endpoint {
    #[verifier::type_invariant]
    spec fn wf(self) -> bool {
        if self.v6 {
            valid_ipv6(self.host@)
        } else {
            valid_ipv4(self.host@)
        }
    }

    /// The host's address text, without brackets.
    pub fn host(&self) -> (r: &String)
        ensures
            r@ == self@.host,
    {
        &self.host
    }

    /// The bound port.
    pub fn port(&self) -> (r: u16)
        ensures
            r as int == self@.port,
    {
        self.port
    }

    /// Whether the host is IPv6 text.
    pub fn is_ipv6(&self) -> (r: bool)
        ensures
            r == self@.v6,
    {
        self.v6
    }

    /// The endpoint as display text.
    pub fn to_text(&self) -> (r: String)
        ensures
            r@ == endpoint_text(self@),
    {
        proof {
            reveal_strlit("[");
            reveal_strlit("]:");
            reveal_strlit(":");
        }
        let mut out = String::new();
        if self.v6 {
            out.append("[");
            proof {
                assert(out@ =~= seq!['[']);
            }
        }
        out.append(self.host.as_str());
        if self.v6 {
            out.append("]:");
        } else {
            out.append(":");
        }
        push_digits(&mut out, self.port);
        proof {
            if self@.v6 {
                assert(out@ =~= endpoint_text(self@));
            } else {
                assert(out@ =~= endpoint_text(self@));
            }
        }
        out
    }
}

/// The text of one decimal digit.
fn digit_str(d: u16) -> (r: &'static str)
    requires
        d < 10,
    ensures
        r@ == seq![digit_char(d as int)],
{
    proof {
        reveal_strlit("0");
        reveal_strlit("1");
        reveal_strlit("2");
        reveal_strlit("3");
        reveal_strlit("4");
        reveal_strlit("5");
        reveal_strlit("6");
        reveal_strlit("7");
        reveal_strlit("8");
        reveal_strlit("9");
    }
    let r = match d {
        0 => "0",
        1 => "1",
        2 => "2",
        3 => "3",
        4 => "4",
        5 => "5",
        6 => "6",
        7 => "7",
        8 => "8",
        _ => "9",
    };
    proof {
        assert(r@ =~= seq![digit_char(d as int)]);
    }
    r
}

/// The endpoint the token `v[ts..te]` denotes, if any; `v` holds the
/// characters of `s`, so the host text can be sliced straight out of `s`.
fn check_token(v: &Vec<char>, s: &str, ts: usize, te: usize) -> (r: Option<Endpoint>)
    requires
        v@ == s@,
        ts <= te <= v@.len(),
    ensures
        match r {
            Some(e) => token_endpoint(v@.subrange(ts as int, te as int)) == Some(e@),
            None => token_endpoint(v@.subrange(ts as int, te as int)) is None,
        },
{
    let ghost t = v@.subrange(ts as int, te as int);
    if te == ts {
        return None;
    }
    proof {
        assert(t[0] == v@[ts as int]);
    }
    if v[ts] == '[' {
        match find_in(v, ts, te, ']') {
            None => None,
            Some(p) => {
                proof {
                    lemma_find_idx(t, ']');
                }
                if p + 1 < te && v[p + 1] == ':' {
                    proof {
                        assert(t[p - ts + 1] == v@[p + 1]);
                        assert(t.subrange(1, p - ts) =~= v@.subrange(ts + 1, p as int));
                        assert(t.skip(p - ts + 2) =~= v@.subrange(p + 2, te as int));
                    }
                    if check_ipv6(v, ts + 1, p) {
                        match dec_run_value(v, p + 2, te) {
                            None => None,
                            Some(x) => {
                                let host = String::from_str(s.substring_char(ts + 1, p));
                                Some(Endpoint { host, port: x as u16, v6: true })
                            },
                        }
                    } else {
                        None
                    }
                } else {
                    None
                }
            },
        }
    } else {
        match find_in(v, ts, te, ':') {
            None => None,
            Some(p) => {
                proof {
                    assert(t.take(p - ts) =~= v@.subrange(ts as int, p as int));
                    assert(t.skip(p - ts + 1) =~= v@.subrange(p + 1, te as int));
                }
                if check_dotted(v, ts, p, 4) {
                    match dec_run_value(v, p + 1, te) {
                        None => None,
                        Some(x) => {
                            let host = String::from_str(s.substring_char(ts, p));
                            Some(Endpoint { host, port: x as u16, v6: false })
                        },
                    }
                } else {
                    None
                }
            },
        }
    }
}

/// Scan loosely formatted text for the first whitespace-separated token that
/// reads as a network endpoint, IPv4 or bracketed IPv6.  The first token in
/// document order wins, malformed and empty tokens are skipped, and text with
/// no conforming token at all is a `PortParseFailure`.
pub fn parse_first_endpoint(s: &str) -> (r: Result<Endpoint, Error>)
    ensures
        match r {
            Ok(e) => first_endpoint(s@) == Some(e@),
            Err(err) => first_endpoint(s@) is None && err == Error::PortParseFailure,
        },
{
    let v = chars_vec(s);
    let n = v.len();
    let mut i: usize = 0;
    proof {
        assert(v@.skip(0) =~= v@);
    }
    loop
        invariant
            v@ == s@,
            n == v@.len(),
            i <= n,
            first_endpoint(s@) == first_token_endpoint(ws_tokens(v@.skip(i as int))),
        decreases n - i,
    {
        let ghost i0 = i;
        while i < n && is_space(v[i])
            invariant
                i0 <= i <= n == v@.len(),
                v@ == s@,
                first_endpoint(s@) == first_token_endpoint(ws_tokens(v@.skip(i as int))),
            decreases n - i,
        {
            proof {
                assert(v@.skip(i as int)[0] == v@[i as int]);
                assert(v@.skip(i as int).skip(1) =~= v@.skip(i + 1));
            }
            i += 1;
        }
        if i == n {
            proof {
                assert(v@.skip(n as int) =~= Seq::<char>::empty());
            }
            return Err(Error::PortParseFailure);
        }
        let start = i;
        let mut j = start;
        while j < n && !is_space(v[j])
            invariant
                start <= j <= n == v@.len(),
                v@ == s@,
                token_len(v@.skip(start as int)) == (j - start) + token_len(v@.skip(j as int)),
            decreases n - j,
        {
            proof {
                assert(v@.skip(j as int)[0] == v@[j as int]);
                assert(v@.skip(j as int).skip(1) =~= v@.skip(j + 1));
            }
            j += 1;
        }
        proof {
            if j == n {
                assert(v@.skip(n as int) =~= Seq::<char>::empty());
            } else {
                assert(v@.skip(j as int)[0] == v@[j as int]);
            }
            assert(token_len(v@.skip(start as int)) == j - start);
            let x = v@.skip(start as int);
            assert(x[0] == v@[start as int]);
            assert(x.take(j - start) =~= v@.subrange(start as int, j as int));
            assert(x.skip(j - start) =~= v@.skip(j as int));
        }
        match check_token(&v, s, start, j) {
            Some(e) => {
                proof {
                    let toks = ws_tokens(v@.skip(start as int));
                    assert(toks[0] == v@.subrange(start as int, j as int));
                }
                return Ok(e);
            },
            None => {
                proof {
                    let toks = ws_tokens(v@.skip(start as int));
                    assert(toks[0] == v@.subrange(start as int, j as int));
                    assert(toks.skip(1) =~= ws_tokens(v@.skip(j as int)));
                }
                i = j;
            },
        }
    }
}

/// Append the decimal digits of `x`, most significant first.
fn push_digits(out: &mut String, x: u16)
    ensures
        final (out)@ == old(out)@ + dec_digits(x as int),
    decreases x,
{
    if x >= 10 {
        push_digits(out, x / 10);
        out.append(digit_str(x % 10));
        proof {
            assert(out@ =~= old(out)@ + dec_digits(x as int));
        }
    } else {
        out.append(digit_str(x));
        proof {
            assert(out@ =~= old(out)@ + dec_digits(x as int));
        }
    }
}

} // verus!
