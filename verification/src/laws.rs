//! Properties of compilation and resolution, stated once over the
//! model and proved for every configuration.

use vstd::prelude::*;
use vstd::seq_lib::*;

use crate::address_map::{
    exact_map_of, exact_pairs, norm_entries, pattern_pairs, resolve_model, tag_with,
    MailboxConfigView,
};
use crate::pattern::regex_match;
use crate::text::norm_line_of;

verus! {

/// Compilation is deterministic: two maps compiled from the same
/// configuration resolve every address identically, because both
/// models are the same function of the configuration alone.
pub proof fn lemma_compile_deterministic(
    cfg: Seq<MailboxConfigView>,
    exact1: Map<Seq<char>, Seq<char>>,
    pats1: Seq<(Seq<char>, Seq<char>)>,
    exact2: Map<Seq<char>, Seq<char>>,
    pats2: Seq<(Seq<char>, Seq<char>)>,
    addr: Seq<char>,
)
    requires
        exact1 == exact_map_of(exact_pairs(cfg)),
        pats1 == pattern_pairs(cfg),
        exact2 == exact_map_of(exact_pairs(cfg)),
        pats2 == pattern_pairs(cfg),
    ensures
        resolve_model(exact1, pats1, addr) == resolve_model(exact2, pats2, addr),
{
}

/// An exact entry always takes precedence: whatever patterns are
/// declared, and wherever they stand, an address with an exact entry
/// resolves to that entry's mailbox.
pub proof fn lemma_exact_precedence(
    exact: Map<Seq<char>, Seq<char>>,
    pats: Seq<(Seq<char>, Seq<char>)>,
    addr: Seq<char>,
)
    requires
        exact.contains_key(addr),
    ensures
        resolve_model(exact, pats, addr) == Some(exact[addr]),
{
}

/// Among patterns the first declared match wins: if the pattern at
/// position `i` matches the address and no earlier pattern does, and
/// no exact entry exists, resolution returns that pattern's mailbox.
pub proof fn lemma_first_pattern_wins(
    exact: Map<Seq<char>, Seq<char>>,
    pats: Seq<(Seq<char>, Seq<char>)>,
    addr: Seq<char>,
    i: int,
)
    requires
        !exact.contains_key(addr),
        0 <= i < pats.len(),
        regex_match(pats[i].0, addr),
        forall|j: int| 0 <= j < i ==> !regex_match((#[trigger] pats[j]).0, addr),
    ensures
        resolve_model(exact, pats, addr) == Some(pats[i].1),
    decreases i,
{
    if i > 0 {
        let rest = pats.drop_first();
        assert(forall|t: int| 0 <= t < rest.len() ==> (#[trigger] rest[t]) == pats[t + 1]);
        lemma_first_pattern_wins(exact, rest, addr, i - 1);
    }
}

/// A configuration with no rule for an address yields no match, as
/// distinct from an error: resolution is total.
pub proof fn lemma_no_match(
    exact: Map<Seq<char>, Seq<char>>,
    pats: Seq<(Seq<char>, Seq<char>)>,
    addr: Seq<char>,
)
    requires
        !exact.contains_key(addr),
        forall|j: int| 0 <= j < pats.len() ==> !regex_match((#[trigger] pats[j]).0, addr),
    ensures
        resolve_model(exact, pats, addr) is None,
    decreases pats.len(),
{
    if pats.len() > 0 {
        let rest = pats.drop_first();
        assert(forall|t: int| 0 <= t < rest.len() ==> (#[trigger] rest[t]) == pats[t + 1]);
        lemma_no_match(exact, rest, addr);
    }
}

/// Resolution sees nothing of a query but its normalized form: two
/// addresses with the same normalization resolve identically.  That
/// lowercasing folds letter case is the lowercase function's own
/// behavior, exercised by tests.
pub proof fn lemma_normalized_queries_agree(
    exact: Map<Seq<char>, Seq<char>>,
    pats: Seq<(Seq<char>, Seq<char>)>,
    a: Seq<char>,
    b: Seq<char>,
)
    requires
        norm_line_of(a) == norm_line_of(b),
    ensures
        resolve_model(exact, pats, norm_line_of(a)) == resolve_model(exact, pats, norm_line_of(b)),
{
}

/// Blank lines and surrounding whitespace never produce a rule: every
/// normalized entry of every blob is non-empty.
pub proof fn lemma_no_empty_entries(blobs: Seq<Seq<char>>)
    ensures
        forall|i: int| 0 <= i < norm_entries(blobs).len() ==> (#[trigger] norm_entries(blobs)[i]).len() > 0,
    decreases blobs.len(),
{
    if blobs.len() > 0 {
        lemma_no_empty_entries(blobs.drop_last());
        let front = norm_entries(blobs.drop_last());
        let tail = crate::text::norm_blob_of(blobs.last());
        let lines = crate::text::split_lines(blobs.last()).map_values(
            |l: Seq<char>| norm_line_of(l),
        );
        let pred = |l: Seq<char>| l.len() > 0;
        assert(tail == lines.filter(pred));
        assert forall|i: int| 0 <= i < tail.len() implies (#[trigger] tail[i]).len() > 0 by {
            lines.lemma_filter_pred(pred, i);
        }
        assert forall|i: int|
            0 <= i < norm_entries(blobs).len() implies (#[trigger] norm_entries(blobs)[i]).len()
            > 0 by {
            if i < front.len() {
                assert(norm_entries(blobs)[i] == front[i]);
            } else {
                assert(norm_entries(blobs)[i] == tail[i - front.len()]);
            }
        }
    }
}

/// Hence no rule of any configuration is empty: every exact address,
/// every key of the exact map, and every pattern source has at least
/// one character.
pub proof fn lemma_no_empty_rules(cfg: Seq<MailboxConfigView>)
    ensures
        forall|i: int|
            0 <= i < exact_pairs(cfg).len() ==> (#[trigger] exact_pairs(cfg)[i]).0.len() > 0,
        forall|i: int|
            0 <= i < pattern_pairs(cfg).len() ==> (#[trigger] pattern_pairs(cfg)[i]).0.len() > 0,
        forall|k: Seq<char>| exact_map_of(exact_pairs(cfg)).contains_key(k) ==> k.len() > 0,
    decreases cfg.len(),
{
    if cfg.len() > 0 {
        lemma_no_empty_rules(cfg.drop_last());
        lemma_no_empty_entries(cfg.last().addresses);
        lemma_no_empty_entries(cfg.last().patterns);
        let efront = exact_pairs(cfg.drop_last());
        let etail = tag_with(norm_entries(cfg.last().addresses), cfg.last().name);
        assert forall|i: int|
            0 <= i < exact_pairs(cfg).len() implies (#[trigger] exact_pairs(cfg)[i]).0.len()
            > 0 by {
            if i < efront.len() {
                assert(exact_pairs(cfg)[i] == efront[i]);
            } else {
                assert(exact_pairs(cfg)[i] == etail[i - efront.len()]);
            }
        }
        let pfront = pattern_pairs(cfg.drop_last());
        let ptail = tag_with(norm_entries(cfg.last().patterns), cfg.last().name);
        assert forall|i: int|
            0 <= i < pattern_pairs(cfg).len() implies (#[trigger] pattern_pairs(cfg)[i]).0.len()
            > 0 by {
            if i < pfront.len() {
                assert(pattern_pairs(cfg)[i] == pfront[i]);
            } else {
                assert(pattern_pairs(cfg)[i] == ptail[i - pfront.len()]);
            }
        }
    }
    lemma_exact_map_keys(exact_pairs(cfg));
}

proof fn lemma_exact_map_keys(pairs: Seq<(Seq<char>, Seq<char>)>)
    ensures
        forall|k: Seq<char>|
            exact_map_of(pairs).contains_key(k) ==> exists|i: int|
                0 <= i < pairs.len() && (#[trigger] pairs[i]).0 == k,
    decreases pairs.len(),
{
    if pairs.len() > 0 {
        lemma_exact_map_keys(pairs.drop_last());
        assert forall|k: Seq<char>| exact_map_of(pairs).contains_key(k) implies exists|i: int|
            0 <= i < pairs.len() && (#[trigger] pairs[i]).0 == k by {
            if k == pairs.last().0 {
                assert(pairs[pairs.len() - 1].0 == k);
            } else {
                let front = pairs.drop_last();
                assert(exact_map_of(front).contains_key(k));
                let i = choose|i: int| 0 <= i < front.len() && (#[trigger] front[i]).0 == k;
                assert(pairs[i].0 == k);
            }
        }
    }
}

} // verus!
