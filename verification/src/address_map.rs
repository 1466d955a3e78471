//! The compiled address-to-mailbox resolution structure.
//!
//! [`AddressMap::compile`] turns a decoded configuration — an ordered
//! list of mailboxes, each with blobs of exact addresses and of
//! patterns — into an immutable map.  `mailbox_name_for_address`
//! resolves one address: exact entries take precedence, then the
//! earliest declared matching pattern; otherwise there is no match.

use vstd::prelude::*;
use vstd::seq_lib::*;

use crate::pattern::{regex_match, regex_valid, CompiledPattern};
use crate::text::{norm_blob_of, normalize_blob};

verus! {

/// One mailbox as it stands in the decoded configuration: its name,
/// and raw newline-separated blobs of exact addresses and of patterns.
pub struct MailboxConfig {
    pub name: String,
    pub addresses: Vec<String>,
    pub patterns: Vec<String>,
}

/// The mathematical content of a [`MailboxConfig`].
pub ghost struct MailboxConfigView {
    pub name: Seq<char>,
    pub addresses: Seq<Seq<char>>,
    pub patterns: Seq<Seq<char>>,
}

impl View for MailboxConfig {
    type V = MailboxConfigView;

    open spec fn view(&self) -> MailboxConfigView {
        MailboxConfigView {
            name: self.name@,
            addresses: self.addresses.deep_view(),
            patterns: self.patterns.deep_view(),
        }
    }
}

impl DeepView for MailboxConfig {
    type V = MailboxConfigView;

    open spec fn deep_view(&self) -> MailboxConfigView {
        self.view()
    }
}

/// All normalized entries of a list of blobs, in declaration order.
pub open spec fn norm_entries(blobs: Seq<Seq<char>>) -> Seq<Seq<char>>
    decreases blobs.len(),
{
    if blobs.len() == 0 {
        Seq::<Seq<char>>::empty()
    } else {
        norm_entries(blobs.drop_last()) + norm_blob_of(blobs.last())
    }
}

/// Entries tagged with the mailbox they belong to.
pub open spec fn tag_with(entries: Seq<Seq<char>>, name: Seq<char>) -> Seq<(Seq<char>, Seq<char>)> {
    entries.map_values(|e: Seq<char>| (e, name))
}

/// Every (normalized exact address, mailbox name) pair of the
/// configuration, in declaration order.
pub open spec fn exact_pairs(cfg: Seq<MailboxConfigView>) -> Seq<(Seq<char>, Seq<char>)>
    decreases cfg.len(),
{
    if cfg.len() == 0 {
        Seq::<(Seq<char>, Seq<char>)>::empty()
    } else {
        exact_pairs(cfg.drop_last()) + tag_with(norm_entries(cfg.last().addresses), cfg.last().name)
    }
}

/// Every (normalized pattern source, mailbox name) pair of the
/// configuration, in declaration order.
pub open spec fn pattern_pairs(cfg: Seq<MailboxConfigView>) -> Seq<(Seq<char>, Seq<char>)>
    decreases cfg.len(),
{
    if cfg.len() == 0 {
        Seq::<(Seq<char>, Seq<char>)>::empty()
    } else {
        pattern_pairs(cfg.drop_last()) + tag_with(norm_entries(cfg.last().patterns), cfg.last().name)
    }
}

/// The exact-address map built by inserting each pair in declaration
/// order: a later declaration of the same address overwrites an
/// earlier one.
pub open spec fn exact_map_of(pairs: Seq<(Seq<char>, Seq<char>)>) -> Map<Seq<char>, Seq<char>>
    decreases pairs.len(),
{
    if pairs.len() == 0 {
        Map::<Seq<char>, Seq<char>>::empty()
    } else {
        exact_map_of(pairs.drop_last()).insert(pairs.last().0, pairs.last().1)
    }
}

/// The mailbox of the first pattern in `pats` that matches `addr`.
pub open spec fn first_match(pats: Seq<(Seq<char>, Seq<char>)>, addr: Seq<char>) -> Option<
    Seq<char>,
>
    decreases pats.len(),
{
    if pats.len() == 0 {
        None
    } else if regex_match(pats[0].0, addr) {
        Some(pats[0].1)
    } else {
        first_match(pats.drop_first(), addr)
    }
}

/// The first (pattern source, mailbox name) pair whose source is not a
/// valid regular expression, if any.
pub open spec fn first_invalid(pats: Seq<(Seq<char>, Seq<char>)>) -> Option<(Seq<char>, Seq<char>)>
    decreases pats.len(),
{
    if pats.len() == 0 {
        None
    } else if !regex_valid(pats[0].0) {
        Some(pats[0])
    } else {
        first_invalid(pats.drop_first())
    }
}

/// What resolution returns: the exact entry for `addr` when there is
/// one, else the mailbox of the earliest matching pattern, else none.
pub open spec fn resolve_model(
    exact: Map<Seq<char>, Seq<char>>,
    pats: Seq<(Seq<char>, Seq<char>)>,
    addr: Seq<char>,
) -> Option<Seq<char>> {
    if exact.contains_key(addr) {
        Some(exact[addr])
    } else {
        first_match(pats, addr)
    }
}
/// The entry an association list yields for key `k` when a later
/// entry overwrites an earlier one with the same key.
pub open spec fn lookup_last(pairs: Seq<(Seq<char>, Seq<char>)>, k: Seq<char>) -> Option<Seq<char>>
    decreases pairs.len(),
{
    if pairs.len() == 0 {
        None
    } else if pairs.last().0 == k {
        Some(pairs.last().1)
    } else {
        lookup_last(pairs.drop_last(), k)
    }
}

proof fn lemma_exact_map_is_lookup(pairs: Seq<(Seq<char>, Seq<char>)>, k: Seq<char>)
    ensures
        exact_map_of(pairs).contains_key(k) <==> lookup_last(pairs, k) is Some,
        exact_map_of(pairs).contains_key(k) ==> exact_map_of(pairs)[k] == lookup_last(pairs, k)->0,
    decreases pairs.len(),
{
    if pairs.len() > 0 {
        lemma_exact_map_is_lookup(pairs.drop_last(), k);
    }
}

/// The (pattern source, mailbox name) pairs that a list of compiled
/// rules stands for.
pub open spec fn rules_view(rules: Seq<(CompiledPattern, String)>) -> Seq<(Seq<char>, Seq<char>)> {
    rules.map_values(|p: (CompiledPattern, String)| (p.0.src(), p.1@))
}

/// A pattern that failed to compile: the owning mailbox, the pattern
/// text as declared (normalized), and the parser's message.
#[derive(Debug)]
pub struct CompileError {
    pub mailbox: String,
    pub pattern: String,
    pub detail: String,
}

proof fn lemma_norm_entries_step(blobs: Seq<Seq<char>>, b: int)
    requires
        0 <= b < blobs.len(),
    ensures
        norm_entries(blobs.take(b + 1)) == norm_entries(blobs.take(b)) + norm_blob_of(blobs[b]),
{
    assert(blobs.take(b + 1).drop_last() =~= blobs.take(b));
    assert(blobs.take(b + 1).last() == blobs[b]);
}

proof fn lemma_exact_pairs_step(cfg: Seq<MailboxConfigView>, m: int)
    requires
        0 <= m < cfg.len(),
    ensures
        exact_pairs(cfg.take(m + 1)) == exact_pairs(cfg.take(m)) + tag_with(
            norm_entries(cfg[m].addresses),
            cfg[m].name,
        ),
{
    assert(cfg.take(m + 1).drop_last() =~= cfg.take(m));
    assert(cfg.take(m + 1).last() == cfg[m]);
}

proof fn lemma_pattern_pairs_step(cfg: Seq<MailboxConfigView>, m: int)
    requires
        0 <= m < cfg.len(),
    ensures
        pattern_pairs(cfg.take(m + 1)) == pattern_pairs(cfg.take(m)) + tag_with(
            norm_entries(cfg[m].patterns),
            cfg[m].name,
        ),
{
    assert(cfg.take(m + 1).drop_last() =~= cfg.take(m));
    assert(cfg.take(m + 1).last() == cfg[m]);
}

proof fn lemma_first_invalid_at(pats: Seq<(Seq<char>, Seq<char>)>, i: int)
    requires
        0 <= i < pats.len(),
        forall|t: int| 0 <= t < i ==> regex_valid((#[trigger] pats[t]).0),
        !regex_valid(pats[i].0),
    ensures
        first_invalid(pats) == Some(pats[i]),
    decreases i,
{
    if i > 0 {
        let rest = pats.drop_first();
        assert(forall|t: int| 0 <= t < i - 1 ==> (#[trigger] rest[t]) == pats[t + 1]);
        lemma_first_invalid_at(rest, i - 1);
    }
}

proof fn lemma_first_invalid_none(pats: Seq<(Seq<char>, Seq<char>)>)
    requires
        forall|t: int| 0 <= t < pats.len() ==> regex_valid((#[trigger] pats[t]).0),
    ensures
        first_invalid(pats) is None,
    decreases pats.len(),
{
    if pats.len() > 0 {
        let rest = pats.drop_first();
        assert(forall|t: int| 0 <= t < rest.len() ==> (#[trigger] rest[t]) == pats[t + 1]);
        lemma_first_invalid_none(rest);
    }
}

/// Append each normalized entry of `blobs`, tagged with the mailbox
/// name, to `out`.
fn collect_tagged(blobs: &Vec<String>, name: &String, out: &mut Vec<(String, String)>)
    ensures
        final(out).deep_view() == old(out).deep_view() + tag_with(
            norm_entries(blobs.deep_view()),
            name@,
        ),
{
    let ghost orig = out.deep_view();
    let ghost bl = blobs.deep_view();
    proof {
        assert(bl.take(0) =~= Seq::<Seq<char>>::empty());
        assert(orig + tag_with(norm_entries(bl.take(0)), name@) =~= orig);
    }
    let mut b: usize = 0;
    while b < blobs.len()
        invariant
            0 <= b <= blobs.len(),
            bl == blobs.deep_view(),
            out.deep_view() == orig + tag_with(norm_entries(bl.take(b as int)), name@),
        decreases blobs.len() - b,
    {
        let lines = normalize_blob(blobs[b].as_str());
        let ghost ldv = lines.deep_view();
        let ghost base = out.deep_view();
        proof {
            assert(bl[b as int] == blobs@[b as int]@);
            assert(ldv.take(0) =~= Seq::<Seq<char>>::empty());
            assert(base + tag_with(ldv.take(0), name@) =~= base);
        }
        let mut l: usize = 0;
        while l < lines.len()
            invariant
                0 <= l <= lines.len(),
                ldv == lines.deep_view(),
                out.deep_view() == base + tag_with(ldv.take(l as int), name@),
            decreases lines.len() - l,
        {
            let ghost before = out.deep_view();
            out.push((lines[l].clone(), name.clone()));
            proof {
                let ll = l as int;
                assert(ldv[ll] == lines@[ll]@);
                assert(out.deep_view() =~= before.push((ldv[ll], name@)));
                assert(ldv.take(ll + 1) =~= ldv.take(ll).push(ldv[ll]));
                assert(tag_with(ldv.take(ll + 1), name@) =~= tag_with(ldv.take(ll), name@).push(
                    (ldv[ll], name@),
                ));
                assert(before.push((ldv[ll], name@)) =~= base + tag_with(ldv.take(ll + 1), name@));
            }
            l = l + 1;
        }
        proof {
            let bb = b as int;
            assert(ldv.take(ldv.len() as int) =~= ldv);
            lemma_norm_entries_step(bl, bb);
            assert(tag_with(norm_entries(bl.take(bb)) + ldv, name@) =~= tag_with(
                norm_entries(bl.take(bb)),
                name@,
            ) + tag_with(ldv, name@));
            assert(out.deep_view() =~= orig + tag_with(norm_entries(bl.take(bb + 1)), name@));
        }
        b = b + 1;
    }
    proof {
        assert(bl.take(blobs@.len() as int) =~= bl);
    }
}

/// Every (normalized exact address, mailbox name) pair of the
/// configuration, in declaration order.
fn collect_exact_pairs(config: &Vec<MailboxConfig>) -> (out: Vec<(String, String)>)
    ensures
        out.deep_view() == exact_pairs(config.deep_view()),
{
    let ghost cfg = config.deep_view();
    let mut out: Vec<(String, String)> = Vec::new();
    proof {
        assert(cfg.take(0) =~= Seq::<MailboxConfigView>::empty());
        assert(out.deep_view() =~= Seq::<(Seq<char>, Seq<char>)>::empty());
    }
    let mut m: usize = 0;
    while m < config.len()
        invariant
            0 <= m <= config.len(),
            cfg == config.deep_view(),
            out.deep_view() == exact_pairs(cfg.take(m as int)),
        decreases config.len() - m,
    {
        let mc = &config[m];
        collect_tagged(&mc.addresses, &mc.name, &mut out);
        proof {
            let mm = m as int;
            assert(cfg[mm] == config@[mm]@);
            lemma_exact_pairs_step(cfg, mm);
        }
        m = m + 1;
    }
    proof {
        assert(cfg.take(config@.len() as int) =~= cfg);
    }
    out
}

/// Every (normalized pattern source, mailbox name) pair of the
/// configuration, in declaration order.
fn collect_pattern_pairs(config: &Vec<MailboxConfig>) -> (out: Vec<(String, String)>)
    ensures
        out.deep_view() == pattern_pairs(config.deep_view()),
{
    let ghost cfg = config.deep_view();
    let mut out: Vec<(String, String)> = Vec::new();
    proof {
        assert(cfg.take(0) =~= Seq::<MailboxConfigView>::empty());
        assert(out.deep_view() =~= Seq::<(Seq<char>, Seq<char>)>::empty());
    }
    let mut m: usize = 0;
    while m < config.len()
        invariant
            0 <= m <= config.len(),
            cfg == config.deep_view(),
            out.deep_view() == pattern_pairs(cfg.take(m as int)),
        decreases config.len() - m,
    {
        let mc = &config[m];
        collect_tagged(&mc.patterns, &mc.name, &mut out);
        proof {
            let mm = m as int;
            assert(cfg[mm] == config@[mm]@);
            lemma_pattern_pairs_step(cfg, mm);
        }
        m = m + 1;
    }
    proof {
        assert(cfg.take(config@.len() as int) =~= cfg);
    }
    out
}

/// Compile every pattern source, in declaration order; fail on the
/// first source that is not a valid regular expression.
fn compile_rules(pairs: Vec<(String, String)>) -> (r: Result<
    Vec<(CompiledPattern, String)>,
    CompileError,
>)
    ensures
        ({
            let pv = pairs.deep_view();
            match r {
                Ok(v) => {
                    &&& first_invalid(pv) is None
                    &&& rules_view(v@) == pv
                },
                Err(e) => first_invalid(pv) == Some((e.pattern@, e.mailbox@)),
            }
        }),
{
    let ghost pv = pairs.deep_view();
    let mut out: Vec<(CompiledPattern, String)> = Vec::new();
    let mut k: usize = 0;
    proof {
        assert(rules_view(out@) =~= pv.take(0));
    }
    while k < pairs.len()
        invariant
            0 <= k <= pairs.len(),
            pv == pairs.deep_view(),
            rules_view(out@) == pv.take(k as int),
            forall|t: int| 0 <= t < k ==> regex_valid((#[trigger] pv[t]).0),
        decreases pairs.len() - k,
    {
        let ghost kk = k as int;
        proof {
            assert(pv[kk] == (pairs@[kk].0@, pairs@[kk].1@));
        }
        match CompiledPattern::compile(pairs[k].0.clone()) {
            Ok(p) => {
                let ghost before = out@;
                let ghost psrc = p.src();
                out.push((p, pairs[k].1.clone()));
                proof {
                    assert(pv.take(kk + 1) =~= pv.take(kk).push(pv[kk]));
                    assert(rules_view(out@) =~= pv.take(kk + 1)) by {
                        assert(forall|t: int|
                            0 <= t < before.len() ==> out@[t] == before[t]);
                        assert(out@[before.len() as int].0.src() == psrc);
                        assert(forall|t: int|
                            0 <= t < before.len() ==> #[trigger] rules_view(out@)[t]
                                == rules_view(before)[t]);
                    }
                }
            },
            Err(detail) => {
                let e = CompileError {
                    mailbox: pairs[k].1.clone(),
                    pattern: pairs[k].0.clone(),
                    detail,
                };
                proof {
                    lemma_first_invalid_at(pv, kk);
                }
                return Err(e);
            },
        }
        k = k + 1;
    }
    proof {
        assert(pv.take(pairs@.len() as int) =~= pv);
        lemma_first_invalid_none(pv);
    }
    Ok(out)
}

/// The compiled, immutable resolution structure: the configuration's
/// exact entries and its patterns, each in declaration order.
pub struct AddressMap {
    exact: Vec<(String, String)>,
    patterns: Vec<(CompiledPattern, String)>,
}

impl AddressMap {
    /// Compile a decoded configuration into an address map.  Succeeds
    /// exactly when every normalized pattern source is a valid regular
    /// expression; otherwise it reports the first invalid pattern in
    /// declaration order, with its owning mailbox, and no map is
    /// produced.
    pub fn compile(config: &Vec<MailboxConfig>) -> (r: Result<AddressMap, CompileError>)
        ensures
            ({
                let cfg = config.deep_view();
                match r {
                    Ok(m) => {
                        &&& first_invalid(pattern_pairs(cfg)) is None
                        &&& m.exact_entries() == exact_pairs(cfg)
                        &&& m.exact_view() == exact_map_of(exact_pairs(cfg))
                        &&& m.patterns_view() == pattern_pairs(cfg)
                    },
                    Err(e) => first_invalid(pattern_pairs(cfg)) == Some((e.pattern@, e.mailbox@)),
                }
            }),
    {
        let exact = collect_exact_pairs(config);
        let sources = collect_pattern_pairs(config);
        match compile_rules(sources) {
            Ok(patterns) => Ok(AddressMap { exact, patterns }),
            Err(e) => Err(e),
        }
    }

    /// The (normalized exact address, mailbox name) pairs, in
    /// declaration order.
    pub closed spec fn exact_entries(&self) -> Seq<(Seq<char>, Seq<char>)> {
        self.exact.deep_view()
    }

    /// The exact-address map: a later declaration of the same address
    /// overwrites an earlier one.
    pub open spec fn exact_view(&self) -> Map<Seq<char>, Seq<char>> {
        exact_map_of(self.exact_entries())
    }

    /// The (pattern source, mailbox name) pairs, in declaration order.
    pub closed spec fn patterns_view(&self) -> Seq<(Seq<char>, Seq<char>)> {
        rules_view(self.patterns@)
    }

    /// Resolve one already-normalized address: its exact entry if there
    /// is one, else the mailbox of the first declared matching pattern,
    /// else no match.
    pub fn mailbox_name_for_address(&self, address: &str) -> (r: Option<String>)
        ensures
            r.deep_view() == resolve_model(self.exact_view(), self.patterns_view(), address@),
    {
        let ghost entries = self.exact_entries();
        let query: String = address.to_owned();
        let mut i: usize = self.exact.len();
        proof {
            assert(entries.take(i as int) =~= entries);
        }
        while i > 0
            invariant
                0 <= i <= self.exact.len(),
                entries == self.exact_entries(),
                query@ == address@,
                lookup_last(entries, address@) == lookup_last(
                    entries.take(i as int),
                    address@,
                ),
            decreases i,
        {
            proof {
                assert(entries[i - 1] == (self.exact@[i - 1].0@, self.exact@[i - 1].1@));
                assert(entries.take(i as int).last() == entries[i - 1]);
            }
            if self.exact[i - 1].0 == query {
                proof {
                    lemma_exact_map_is_lookup(entries, address@);
                }
                return Some(self.exact[i - 1].1.clone());
            }
            proof {
                assert(entries.take(i as int).drop_last() =~= entries.take(i - 1));
            }
            i = i - 1;
        }
        proof {
            assert(entries.take(0) =~= Seq::<(Seq<char>, Seq<char>)>::empty());
            lemma_exact_map_is_lookup(entries, address@);
            assert(!self.exact_view().contains_key(address@));
            assert(self.patterns_view().skip(0) =~= self.patterns_view());
        }
        let mut j: usize = 0;
        while j < self.patterns.len()
            invariant
                0 <= j <= self.patterns.len(),
                !self.exact_view().contains_key(address@),
                first_match(self.patterns_view(), address@) == first_match(
                    self.patterns_view().skip(j as int),
                    address@,
                ),
            decreases self.patterns.len() - j,
        {
            let ghost pv = self.patterns_view();
            proof {
                let jj = j as int;
                assert(pv[jj] == (self.patterns@[jj].0.src(), self.patterns@[jj].1@));
                assert(pv.skip(jj)[0] == pv[jj]);
            }
            if self.patterns[j].0.matches(address) {
                proof {
                    assert(first_match(pv.skip(j as int), address@) == Some(pv[j as int].1));
                }
                return Some(self.patterns[j].1.clone());
            }
            proof {
                assert(pv.skip(j as int).drop_first() =~= pv.skip(j as int + 1));
            }
            j = j + 1;
        }
        proof {
            assert(self.patterns_view().skip(j as int) =~= Seq::<(Seq<char>, Seq<char>)>::empty());
        }
        None
    }
}

} // verus!
