//! The strategy registry: from configuration text to a strategy list.
//!
//! A selection string is a comma-separated list of strategy names. Each
//! token is trimmed of surrounding whitespace and lowered to ASCII lower
//! case before lookup, so `" Always-Cooperate "` selects the same strategy
//! as `"always-cooperate"`. Unknown names are skipped (a caller may warn
//! about them); if nothing valid remains, the full default set is used
//! instead.

use vstd::prelude::*;
use vstd::string::StringSliceAdditionalSpecFns;

use crate::strategies::StrategyKind;

verus! {

/// The ASCII whitespace bytes that trimming removes: space, tab, line
/// feed, vertical tab, form feed, carriage return.
pub open spec fn is_ascii_whitespace_byte(c: u8) -> bool {
    c == 32 || c == 9 || c == 10 || c == 11 || c == 12 || c == 13
}

/// An upper-case ASCII letter lowered; any other byte unchanged.
pub open spec fn to_lower_byte(c: u8) -> u8 {
    if 65 <= c && c <= 90 {
        (c + 32) as u8
    } else {
        c
    }
}

/// `s` without its leading ASCII whitespace.
pub open spec fn trim_front(s: Seq<u8>) -> Seq<u8>
    decreases s.len(),
{
    if s.len() > 0 && is_ascii_whitespace_byte(s.first()) {
        trim_front(s.drop_first())
    } else {
        s
    }
}

/// `s` without its trailing ASCII whitespace.
pub open spec fn trim_back(s: Seq<u8>) -> Seq<u8>
    decreases s.len(),
{
    if s.len() > 0 && is_ascii_whitespace_byte(s.last()) {
        trim_back(s.drop_last())
    } else {
        s
    }
}

/// A token's canonical form: whitespace trimmed from both ends, then
/// every byte lowered.
pub open spec fn canonical(s: Seq<u8>) -> Seq<u8> {
    trim_back(trim_front(s)).map_values(|c: u8| to_lower_byte(c))
}

/// The strategy a token names, after canonicalization; None for an
/// unknown name.
pub open spec fn spec_strategy_from_name(token: Seq<u8>) -> Option<StrategyKind> {
    let c = canonical(token);
    if c == "always-cooperate".spec_bytes() {
        Some(StrategyKind::AlwaysCooperate)
    } else if c == "always-defect".spec_bytes() {
        Some(StrategyKind::AlwaysDefect)
    } else if c == "tit-for-tat".spec_bytes() {
        Some(StrategyKind::TitForTat)
    } else if c == "random".spec_bytes() {
        Some(StrategyKind::Random)
    } else if c == "two-tits-for-tat".spec_bytes() {
        Some(StrategyKind::TwoTitsForTat)
    } else {
        None
    }
}

/// The strategies the tokens name, in token order, unknown names skipped.
pub open spec fn spec_selected(tokens: Seq<Seq<u8>>) -> Seq<StrategyKind>
    decreases tokens.len(),
{
    if tokens.len() == 0 {
        Seq::empty()
    } else {
        let rest = spec_selected(tokens.drop_last());
        match spec_strategy_from_name(tokens.last()) {
            Some(k) => rest.push(k),
            None => rest,
        }
    }
}

/// The full default strategy set, in its fixed order.
pub open spec fn default_strategy_seq() -> Seq<StrategyKind> {
    seq![
        StrategyKind::AlwaysCooperate,
        StrategyKind::AlwaysDefect,
        StrategyKind::TitForTat,
        StrategyKind::Random,
        StrategyKind::TwoTitsForTat,
    ]
}

/// What a token list selects: the strategies its tokens name, or the
/// full default set when no token names one.
pub open spec fn spec_selection(tokens: Seq<Seq<u8>>) -> Seq<StrategyKind> {
    if spec_selected(tokens).len() == 0 {
        default_strategy_seq()
    } else {
        spec_selected(tokens)
    }
}

/// `tokens` is the comma split of `s`: joining the tokens with commas
/// gives `s` back, and no token holds a comma. These two facts pin the
/// split down uniquely.
pub open spec fn is_comma_split(s: Seq<u8>, tokens: Seq<Seq<u8>>) -> bool {
    &&& tokens.len() >= 1
    &&& comma_free(tokens)
    &&& join_commas(tokens) == s
}

/// No token holds a comma byte.
pub open spec fn comma_free(tokens: Seq<Seq<u8>>) -> bool {
    forall|t: int| 0 <= t < tokens.len() ==> !(#[trigger] tokens[t]).contains(44u8)
}

/// The tokens joined back together with one comma between neighbours.
pub open spec fn join_commas(tokens: Seq<Seq<u8>>) -> Seq<u8>
    decreases tokens.len(),
{
    if tokens.len() == 0 {
        Seq::empty()
    } else if tokens.len() == 1 {
        tokens[0]
    } else {
        tokens[0] + seq![44u8] + join_commas(tokens.drop_first())
    }
}

proof fn lemma_join_commas_push(tokens: Seq<Seq<u8>>, t: Seq<u8>)
    ensures
        join_commas(tokens.push(t)) == if tokens.len() == 0 {
            t
        } else {
            join_commas(tokens) + seq![44u8] + t
        },
    decreases tokens.len(),
{
    let tp = tokens.push(t);
    if tokens.len() == 0 {
        assert(tp[0] =~= t);
        assert(join_commas(tp) =~= t);
    } else {
        assert(tp.drop_first() =~= tokens.drop_first().push(t));
        lemma_join_commas_push(tokens.drop_first(), t);
        if tokens.len() == 1 {
            assert(join_commas(tp) =~= join_commas(tokens) + seq![44u8] + t);
        } else {
            assert(join_commas(tp) =~= join_commas(tokens) + seq![44u8] + t);
        }
    }
}

/// Whether `c` is an ASCII whitespace byte.
fn is_space(c: u8) -> (r: bool)
    ensures
        r == is_ascii_whitespace_byte(c),
{
    c == 32 || c == 9 || c == 10 || c == 11 || c == 12 || c == 13
}

/// A token's canonical form: trimmed of surrounding ASCII whitespace and
/// lowered to ASCII lower case.
pub fn canonical_token(token: &[u8]) -> (r: Vec<u8>)
    ensures
        r@ == canonical(token@),
{
    let len = token.len();
    proof {
        assert(token@.skip(0) =~= token@);
    }
    let mut start: usize = 0;
    while start < len && is_space(token[start])
        invariant
            start <= len,
            len == token@.len(),
            trim_front(token@) == trim_front(token@.skip(start as int)),
        decreases len - start,
    {
        proof {
            assert(token@.skip(start as int).drop_first() =~= token@.skip(start as int + 1));
        }
        start += 1;
    }
    proof {
        assert(trim_front(token@) == token@.skip(start as int));
        assert(token@.skip(start as int) =~= token@.subrange(start as int, len as int));
    }
    let mut end: usize = len;
    while end > start && is_space(token[end - 1])
        invariant
            start <= end <= len,
            len == token@.len(),
            trim_back(trim_front(token@)) == trim_back(
                token@.subrange(start as int, end as int),
            ),
        decreases end,
    {
        proof {
            assert(token@.subrange(start as int, end as int).drop_last() =~= token@.subrange(
                start as int,
                end as int - 1,
            ));
        }
        end -= 1;
    }
    proof {
        assert(trim_back(trim_front(token@)) == token@.subrange(start as int, end as int));
    }
    let mut out: Vec<u8> = Vec::new();
    let mut i: usize = start;
    while i < end
        invariant
            start <= i <= end <= len,
            len == token@.len(),
            out@.len() == i - start,
            forall|t: int|
                0 <= t < out@.len() ==> out@[t] == to_lower_byte(token@[start as int + t]),
        decreases end - i,
    {
        let c = token[i];
        let lc: u8 = if c >= 65 && c <= 90 {
            c + 32
        } else {
            c
        };
        out.push(lc);
        i += 1;
    }
    proof {
        assert(out@ =~= canonical(token@));
    }
    out
}

/// Whether two byte strings hold the same bytes.
fn bytes_eq(a: &[u8], b: &[u8]) -> (r: bool)
    ensures
        r <==> a@ == b@,
{
    if a.len() != b.len() {
        return false;
    }
    let mut i: usize = 0;
    while i < a.len()
        invariant
            a@.len() == b@.len(),
            i <= a@.len(),
            forall|t: int| 0 <= t < i ==> a@[t] == b@[t],
        decreases a@.len() - i,
    {
        if a[i] != b[i] {
            return false;
        }
        i += 1;
    }
    proof {
        assert(a@ =~= b@);
    }
    true
}

/// Look one token up in the registry: trim it, lower it, and match it
/// against the five built-in strategy names.
pub fn strategy_from_name(token: &[u8]) -> (r: Option<StrategyKind>)
    ensures
        r == spec_strategy_from_name(token@),
{
    let canon = canonical_token(token);
    if bytes_eq(canon.as_slice(), "always-cooperate".as_bytes()) {
        Some(StrategyKind::AlwaysCooperate)
    } else if bytes_eq(canon.as_slice(), "always-defect".as_bytes()) {
        Some(StrategyKind::AlwaysDefect)
    } else if bytes_eq(canon.as_slice(), "tit-for-tat".as_bytes()) {
        Some(StrategyKind::TitForTat)
    } else if bytes_eq(canon.as_slice(), "random".as_bytes()) {
        Some(StrategyKind::Random)
    } else if bytes_eq(canon.as_slice(), "two-tits-for-tat".as_bytes()) {
        Some(StrategyKind::TwoTitsForTat)
    } else {
        None
    }
}

/// The full default strategy set, in its fixed order.
pub fn default_strategies() -> (r: Vec<StrategyKind>)
    ensures
        r@ == default_strategy_seq(),
{
    let mut v: Vec<StrategyKind> = Vec::new();
    v.push(StrategyKind::AlwaysCooperate);
    v.push(StrategyKind::AlwaysDefect);
    v.push(StrategyKind::TitForTat);
    v.push(StrategyKind::Random);
    v.push(StrategyKind::TwoTitsForTat);
    proof {
        assert(v@ =~= default_strategy_seq());
    }
    v
}

/// Select strategies by the given name tokens, in order, skipping
/// unknown names; an empty selection falls back to the full default set.
pub fn select_strategies(tokens: &Vec<Vec<u8>>) -> (r: Vec<StrategyKind>)
    ensures
        r@ == spec_selection(tokens.deep_view()),
{
    let mut picked: Vec<StrategyKind> = Vec::new();
    let mut i: usize = 0;
    while i < tokens.len()
        invariant
            i <= tokens@.len(),
            tokens.deep_view().len() == tokens@.len(),
            picked@ == spec_selected(tokens.deep_view().take(i as int)),
        decreases tokens@.len() - i,
    {
        let tok: &Vec<u8> = &tokens[i];
        proof {
            let deep = tokens.deep_view();
            assert(deep[i as int] == tokens@[i as int]@);
            assert(deep.take(i as int + 1).drop_last() =~= deep.take(i as int));
            assert(deep.take(i as int + 1).last() == deep[i as int]);
        }
        match strategy_from_name(tok.as_slice()) {
            Some(k) => picked.push(k),
            None => (),
        }
        i += 1;
    }
    proof {
        assert(tokens.deep_view().take(tokens@.len() as int) =~= tokens.deep_view());
    }
    if picked.len() == 0 {
        default_strategies()
    } else {
        picked
    }
}

/// Split a selection string on commas. The result is pinned down by its
/// two stated properties: no token holds a comma, and joining the tokens
/// with commas gives the input back.
pub fn split_commas(s: &[u8]) -> (r: Vec<Vec<u8>>)
    ensures
        is_comma_split(s@, r.deep_view()),
{
    let mut out: Vec<Vec<u8>> = Vec::new();
    let mut cur: Vec<u8> = Vec::new();
    let mut i: usize = 0;
    while i < s.len()
        invariant
            i <= s@.len(),
            comma_free(out.deep_view()),
            !cur@.contains(44u8),
            join_commas(out.deep_view().push(cur@)) == s@.subrange(0, i as int),
        decreases s@.len() - i,
    {
        let ghost old_out = out.deep_view();
        let ghost old_cur = cur@;
        let c = s[i];
        if c == 44 {
            out.push(cur);
            cur = Vec::new();
            proof {
                assert(out.deep_view() =~~= old_out.push(old_cur));
                lemma_join_commas_push(old_out, old_cur);
                lemma_join_commas_push(old_out.push(old_cur), cur@);
                assert(join_commas(out.deep_view().push(cur@)) =~= s@.subrange(0, i as int + 1));
                assert(comma_free(out.deep_view()));
            }
        } else {
            cur.push(c);
            proof {
                lemma_join_commas_push(old_out, old_cur);
                lemma_join_commas_push(old_out, cur@);
                assert(cur@ =~= old_cur.push(c));
                assert(join_commas(out.deep_view().push(cur@)) =~= s@.subrange(0, i as int + 1));
            }
        }
        i += 1;
    }
    let ghost old_out = out.deep_view();
    let ghost old_cur = cur@;
    out.push(cur);
    proof {
        assert(out.deep_view() =~~= old_out.push(old_cur));
        assert(s@.subrange(0, s@.len() as int) =~= s@);
        assert(comma_free(out.deep_view()));
    }
    out
}

/// Parse a comma-separated selection string: split it into tokens, look
/// each token up, and fall back to the full default set when no token
/// names a strategy.
pub fn parse_strategies(s: &[u8]) -> (r: Vec<StrategyKind>)
    ensures
        exists|tokens: Seq<Seq<u8>>|
            #[trigger] is_comma_split(s@, tokens) && r@ == spec_selection(tokens),
{
    let tokens = split_commas(s);
    let r = select_strategies(&tokens);
    proof {
        assert(is_comma_split(s@, tokens.deep_view()) && r@ == spec_selection(
            tokens.deep_view(),
        ));
    }
    r
}

} // verus!
