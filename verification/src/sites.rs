use vstd::prelude::*;
use vstd::multiset::Multiset;
use crate::config::{is_default_config, SiteConfig};
use crate::order::{lemma_text_le_reflexive, lemma_text_le_total, lemma_text_le_transitive, text_le, text_le_exec};

verus! {

broadcast use vstd::seq_lib::group_to_multiset_ensures;

/// A site's figures for the administrators' overview.
#[derive(Clone, Debug)]
pub struct SiteSummary {
    pub domain: String,
    pub active: usize,
    pub waiting: usize,
    pub max_active: usize,
}

/// Whether the summaries come in the order of their domains.
pub open spec fn sorted_by_domain(v: Seq<SiteSummary>) -> bool {
    forall|i: int, j: int| 0 <= i < j < v.len() ==> text_le(#[trigger] v[i].domain@, #[trigger] v[j].domain@)
}

/// The summaries, ordered by domain.
pub fn sort_by_domain(v: Vec<SiteSummary>) -> (r: Vec<SiteSummary>)
    ensures
        r@.to_multiset() == v@.to_multiset(),
        sorted_by_domain(r@),
{
    let ghost orig = v@;
    let mut rest = v;
    let mut out: Vec<SiteSummary> = Vec::new();
    while rest.len() > 0
        invariant
            out@.to_multiset().add(rest@.to_multiset()) == orig.to_multiset(),
            sorted_by_domain(out@),
        decreases rest@.len(),
    {
        let ghost rest_before = rest@;
        let x = rest.pop().unwrap();
        assert(rest_before =~= rest@.push(x));
        let mut pos: usize = 0;
        while pos < out.len() && text_le_exec(out[pos].domain.as_str(), x.domain.as_str())
            invariant
                pos <= out@.len(),
                forall|k: int| 0 <= k < pos ==> text_le(#[trigger] out@[k].domain@, x.domain@),
            decreases out@.len() - pos,
        {
            pos = pos + 1;
        }
        let ghost out_before = out@;
        proof {
            if pos < out@.len() {
                lemma_text_le_total(out@[pos as int].domain@, x.domain@);
            }
        }
        out.insert(pos, x);
        proof {
            assert(out@.remove(pos as int) =~= out_before);
            assert(out@[pos as int] == x);
            assert(out@.to_multiset().remove(x) =~= out_before.to_multiset());
            assert(out@.to_multiset() =~= out_before.to_multiset().insert(x));
            assert forall|i: int, j: int| 0 <= i < j < out@.len() implies text_le(
                #[trigger] out@[i].domain@,
                #[trigger] out@[j].domain@,
            ) by {
                if j == pos {
                    assert(out@[i] == out_before[i]);
                } else if i == pos {
                    assert(out@[j] == out_before[j - 1]);
                    if j - 1 > pos {
                        assert(text_le(out_before[pos as int].domain@, out_before[j - 1].domain@));
                    } else {
                        lemma_text_le_reflexive(out_before[pos as int].domain@);
                    }
                    lemma_text_le_transitive(x.domain@, out_before[pos as int].domain@, out_before[j - 1].domain@);
                } else if j < pos {
                    assert(out@[i] == out_before[i] && out@[j] == out_before[j]);
                } else if i < pos {
                    assert(out@[i] == out_before[i] && out@[j] == out_before[j - 1]);
                    assert(text_le(out_before[i].domain@, x.domain@));
                    lemma_text_le_total(out_before[pos as int].domain@, x.domain@);
                    if j - 1 > pos {
                        assert(text_le(out_before[pos as int].domain@, out_before[j - 1].domain@));
                    } else {
                        lemma_text_le_reflexive(out_before[pos as int].domain@);
                    }
                    lemma_text_le_transitive(x.domain@, out_before[pos as int].domain@, out_before[j - 1].domain@);
                    lemma_text_le_transitive(out_before[i].domain@, x.domain@, out_before[j - 1].domain@);
                } else {
                    assert(out@[i] == out_before[i - 1] && out@[j] == out_before[j - 1]);
                }
            }
        }
    }
    assert(rest@.to_multiset() =~= Multiset::<SiteSummary>::empty());
    out
}

/// The sites to start with: those read from disk, or, when there are none,
/// the site `localhost` with default settings. The flag says whether that
/// default site was added (and so should be written to disk).
pub fn startup_sites(loaded: Option<Vec<(String, SiteConfig)>>) -> (r: (Vec<(String, SiteConfig)>, bool))
    ensures
        match loaded {
            Some(v) if v@.len() > 0 => r.0 == v && !r.1,
            _ => r.1 && r.0@.len() == 1 && r.0@[0].0@ == "localhost"@ && is_default_config(r.0@[0].1),
        },
{
    if let Some(v) = loaded {
        if v.len() > 0 {
            return (v, false);
        }
    }
    let mut out: Vec<(String, SiteConfig)> = Vec::new();
    out.push((String::from_str("localhost"), SiteConfig::default()));
    (out, true)
}

} // verus!
