//! Properties of the endpoint parser, stated and proved over the same spec
//! functions that `parse_first_endpoint`'s own contract speaks of.

use vstd::prelude::*;

use crate::endpoint::first_endpoint;
use crate::endpoint::first_token_endpoint;
use crate::endpoint::token_endpoint;
use crate::text::all_spaces;
use crate::text::is_space_char;
use crate::text::lemma_token_len;
use crate::text::token_len;
use crate::text::ws_tokens;

verus! {

proof fn lemma_token_len_full(s: Seq<char>)
    requires
        forall|i: int| 0 <= i < s.len() ==> !is_space_char(#[trigger] s[i]),
    ensures
        token_len(s) == s.len(),
    decreases s.len(),
{
    if s.len() > 0 {
        assert(forall|i: int| 0 <= i < s.len() - 1 ==> s.skip(1)[i] == s[i + 1]);
        lemma_token_len_full(s.skip(1));
    }
}

proof fn lemma_ws_tokens_all_spaces(s: Seq<char>)
    requires
        all_spaces(s),
    ensures
        ws_tokens(s) == Seq::<Seq<char>>::empty(),
    decreases s.len(),
{
    if s.len() > 0 {
        assert(forall|i: int| 0 <= i < s.len() - 1 ==> s.skip(1)[i] == s[i + 1]);
        lemma_ws_tokens_all_spaces(s.skip(1));
    }
}

proof fn lemma_ws_prefix(pre: Seq<char>, s: Seq<char>)
    requires
        all_spaces(pre),
    ensures
        ws_tokens(pre + s) == ws_tokens(s),
    decreases pre.len(),
{
    if pre.len() == 0 {
        assert(pre + s =~= s);
    } else {
        assert((pre + s)[0] == pre[0]);
        assert((pre + s).skip(1) =~= pre.skip(1) + s);
        assert(forall|i: int| 0 <= i < pre.len() - 1 ==> pre.skip(1)[i] == pre[i + 1]);
        lemma_ws_prefix(pre.skip(1), s);
    }
}

proof fn lemma_token_len_append_ws(s: Seq<char>, suf: Seq<char>)
    requires
        all_spaces(suf),
    ensures
        token_len(s + suf) == token_len(s),
    decreases s.len(),
{
    if s.len() == 0 {
        assert(s + suf =~= suf);
        if suf.len() > 0 {
            assert(is_space_char(suf[0]));
        }
    } else if is_space_char(s[0]) {
        assert((s + suf)[0] == s[0]);
    } else {
        assert((s + suf)[0] == s[0]);
        assert((s + suf).skip(1) =~= s.skip(1) + suf);
        lemma_token_len_append_ws(s.skip(1), suf);
    }
}

proof fn lemma_ws_suffix(s: Seq<char>, suf: Seq<char>)
    requires
        all_spaces(suf),
    ensures
        ws_tokens(s + suf) == ws_tokens(s),
    decreases s.len(),
{
    if s.len() == 0 {
        assert(s + suf =~= suf);
        lemma_ws_tokens_all_spaces(suf);
        assert(s =~= Seq::<char>::empty());
    } else if is_space_char(s[0]) {
        assert((s + suf)[0] == s[0]);
        assert((s + suf).skip(1) =~= s.skip(1) + suf);
        lemma_ws_suffix(s.skip(1), suf);
    } else {
        assert((s + suf)[0] == s[0]);
        lemma_token_len_append_ws(s, suf);
        lemma_token_len(s);
        let l = token_len(s) as int;
        assert((s + suf).take(l) =~= s.take(l));
        assert((s + suf).skip(l) =~= s.skip(l) + suf);
        lemma_ws_suffix(s.skip(l), suf);
    }
}

/// A single well-formed token is the whole story: text that is exactly one
/// whitespace-free token denotes precisely the endpoint that token denotes —
/// in particular, `"H:P"` parses to port `P` for every well-formed `H:P`,
/// IPv4 or bracketed IPv6 alike.
pub proof fn lemma_single_token(t: Seq<char>)
    requires
        t.len() > 0,
        forall|i: int| 0 <= i < t.len() ==> !is_space_char(#[trigger] t[i]),
    ensures
        first_endpoint(t) == token_endpoint(t),
{
    lemma_token_len_full(t);
    assert(!is_space_char(t[0]));
    assert(t.take(t.len() as int) =~= t);
    assert(t.skip(t.len() as int) =~= Seq::<char>::empty());
    assert(ws_tokens(Seq::<char>::empty()) == Seq::<Seq<char>>::empty());
    let toks = ws_tokens(t);
    assert(toks == seq![t.take(t.len() as int)] + ws_tokens(t.skip(t.len() as int)));
    assert(toks =~= seq![t]);
    assert(toks[0] == t);
    assert(first_endpoint(t) == first_token_endpoint(toks));
    if token_endpoint(t) is Some {
        assert(first_token_endpoint(toks) == token_endpoint(toks[0]));
    } else {
        assert(toks.skip(1) =~= Seq::<Seq<char>>::empty());
        assert(first_token_endpoint(toks) == first_token_endpoint(toks.skip(1)));
        assert(first_token_endpoint(Seq::<Seq<char>>::empty()) is None);
    }
}

/// Leading and trailing white space around the input changes nothing: the
/// padded text denotes exactly the endpoint the bare text denotes.
pub proof fn lemma_padding_ignored(pre: Seq<char>, s: Seq<char>, suf: Seq<char>)
    requires
        all_spaces(pre),
        all_spaces(suf),
    ensures
        first_endpoint(pre + s + suf) == first_endpoint(s),
{
    lemma_ws_suffix(s, suf);
    lemma_ws_prefix(pre, s + suf);
    assert(pre + s + suf =~= pre + (s + suf));
}

proof fn lemma_first_token_at(toks: Seq<Seq<char>>, i: int)
    requires
        0 <= i < toks.len(),
        token_endpoint(toks[i]) is Some,
        forall|j: int| 0 <= j < i ==> token_endpoint(#[trigger] toks[j]) is None,
    ensures
        first_token_endpoint(toks) == token_endpoint(toks[i]),
    decreases i,
{
    if i > 0 {
        assert(token_endpoint(toks[0]) is None);
        assert(forall|j: int| 0 <= j < toks.skip(1).len() ==> toks.skip(1)[j] == toks[j + 1]);
        lemma_first_token_at(toks.skip(1), i - 1);
    }
}

/// The first candidate in document order wins: when the token at position
/// `i` denotes an endpoint and every earlier token denotes none, the text
/// denotes that token's endpoint, whatever follows it.
pub proof fn lemma_first_match_wins(s: Seq<char>, i: int)
    requires
        0 <= i < ws_tokens(s).len(),
        token_endpoint(ws_tokens(s)[i]) is Some,
        forall|j: int| 0 <= j < i ==> token_endpoint(#[trigger] ws_tokens(s)[j]) is None,
    ensures
        first_endpoint(s) == token_endpoint(ws_tokens(s)[i]),
{
    lemma_first_token_at(ws_tokens(s), i);
}

proof fn lemma_first_token_none(toks: Seq<Seq<char>>)
    requires
        forall|j: int| 0 <= j < toks.len() ==> token_endpoint(#[trigger] toks[j]) is None,
    ensures
        first_token_endpoint(toks) is None,
    decreases toks.len(),
{
    if toks.len() > 0 {
        assert(forall|j: int| 0 <= j < toks.skip(1).len() ==> toks.skip(1)[j] == toks[j + 1]);
        lemma_first_token_none(toks.skip(1));
    }
}

/// Text in which no token denotes an endpoint — empty input included —
/// denotes none, and so parses to `PortParseFailure`.
pub proof fn lemma_no_valid_token(s: Seq<char>)
    requires
        forall|j: int|
            0 <= j < ws_tokens(s).len() ==> token_endpoint(#[trigger] ws_tokens(s)[j]) is None,
    ensures
        first_endpoint(s) is None,
{
    lemma_first_token_none(ws_tokens(s));
}

} // verus!
