//! Searching the registry: which modules a query finds, and in what order
//! they are listed.

use crate::registry::{Module, ModuleView, Registry};
use crate::text::{chars_of, comes_before, contains_chars, first_difference, is_part, less};
use vstd::prelude::*;

verus! {

/// One module in the answer to a search.
#[derive(Clone, PartialEq, Eq, Debug)]
pub struct SearchResponse {
    pub author: String,
    pub name: String,
    pub description: String,
    pub latest: String,
    pub featured: bool,
    pub downloads: u64,
}

/// The mathematical value of a [`SearchResponse`].
pub struct Hit {
    pub author: Seq<char>,
    pub name: Seq<char>,
    pub description: Seq<char>,
    pub latest: Seq<char>,
    pub featured: bool,
    pub downloads: u64,
}

impl View for SearchResponse {
    type V = Hit;

    open spec fn view(&self) -> Hit {
        Hit {
            author: self.author@,
            name: self.name@,
            description: self.description@,
            latest: self.latest@,
            featured: self.featured,
            downloads: self.downloads,
        }
    }
}

/// The views of a list of answers.
pub open spec fn hits_of(v: Seq<SearchResponse>) -> Seq<Hit> {
    v.map_values(|r: SearchResponse| r@)
}

/// Whether a search for `q` finds the module: it has a release, and `q` is a
/// part of its name or of its description.
pub open spec fn found_by(m: ModuleView, q: Seq<char>) -> bool {
    m.latest is Some && (is_part(m.name, q) || is_part(m.description, q))
}

/// The answer that stands for a module with a release.
pub open spec fn hit(m: ModuleView) -> Hit {
    Hit {
        author: m.author,
        name: m.name,
        description: m.description,
        latest: m.latest->0,
        featured: m.featured,
        downloads: m.downloads,
    }
}

/// The modules that a search for `q` finds, in the order in which the
/// registry holds them.
pub open spec fn found(modules: Seq<ModuleView>, q: Seq<char>) -> Seq<Hit> {
    modules.filter(|m: ModuleView| found_by(m, q)).map_values(|m: ModuleView| hit(m))
}

/// The order of the answers: featured modules first, then the more
/// downloaded, then by name.
pub open spec fn ranks_before(a: Hit, b: Hit) -> bool {
    if a.featured != b.featured {
        a.featured
    } else if a.downloads != b.downloads {
        a.downloads > b.downloads
    } else {
        comes_before(a.name, b.name)
    }
}

/// No answer stands behind one that it ranks before.
pub open spec fn ranked(s: Seq<Hit>) -> bool {
    forall|i: int, j: int| 0 <= i < j < s.len() ==> !ranks_before(#[trigger] s[j], #[trigger] s[i])
}

/// No text comes before itself.
pub proof fn lemma_order_irreflexive(a: Seq<char>)
    ensures
        !comes_before(a, a),
{
}

/// The dictionary order is transitive.
pub proof fn lemma_order_transitive(a: Seq<char>, b: Seq<char>, c: Seq<char>)
    requires
        comes_before(a, b),
        comes_before(b, c),
    ensures
        comes_before(a, c),
{
    let k1 = choose|k: int| first_difference(a, b, k);
    let k2 = choose|k: int| first_difference(b, c, k);
    if k1 <= k2 {
        assert(a.take(k1) =~= c.take(k1)) by {
            assert forall|i: int| 0 <= i < k1 implies a[i] == c[i] by {
                assert(a.take(k1)[i] == b.take(k1)[i]);
                assert(b.take(k2)[i] == c.take(k2)[i]);
            }
        }
        if k1 < k2 {
            assert(b.take(k2)[k1] == c.take(k2)[k1]);
        }
        assert(first_difference(a, c, k1));
    } else {
        assert(a.take(k2) =~= c.take(k2)) by {
            assert forall|i: int| 0 <= i < k2 implies a[i] == c[i] by {
                assert(a.take(k1)[i] == b.take(k1)[i]);
                assert(b.take(k2)[i] == c.take(k2)[i]);
            }
        }
        assert(a.take(k1)[k2] == b.take(k1)[k2]);
        assert(first_difference(a, c, k2));
    }
}

/// The order of the answers is transitive, and no answer ranks before itself.
pub proof fn lemma_rank_transitive(a: Hit, b: Hit, c: Hit)
    requires
        ranks_before(a, b),
        ranks_before(b, c),
    ensures
        ranks_before(a, c),
        !ranks_before(a, a),
{
    lemma_order_irreflexive(a.name);
    if a.featured == b.featured && b.featured == c.featured && a.downloads == b.downloads
        && b.downloads == c.downloads {
        lemma_order_transitive(a.name, b.name, c.name);
    }
}

/// Whether `a` is listed before `b`.
pub fn listed_before(a: &SearchResponse, b: &SearchResponse) -> (r: bool)
    ensures
        r == ranks_before(a@, b@),
{
    if a.featured != b.featured {
        a.featured
    } else if a.downloads != b.downloads {
        a.downloads > b.downloads
    } else {
        less(a.name.as_str(), b.name.as_str())
    }
}

/// Puts `item` into the ranked list `out`, behind every answer that it does
/// not rank before.
pub fn insert_ranked(out: &mut Vec<SearchResponse>, item: SearchResponse)
    requires
        ranked(hits_of(old(out)@)),
    ensures
        ranked(hits_of(final(out)@)),
        hits_of(final(out)@).to_multiset() == hits_of(old(out)@).to_multiset().insert(item@),
        final(out)@.len() == old(out)@.len() + 1,
{
    let mut at: usize = 0;
    while at < out.len() && !listed_before(&item, &out[at])
        invariant
            at <= out.len(),
            forall|k: int| 0 <= k < at ==> !ranks_before(item@, #[trigger] hits_of(out@)[k]),
        decreases out.len() - at,
    {
        at += 1;
    }
    let ghost before = hits_of(out@);
    out.insert(at, item);
    proof {
        let after = hits_of(out@);
        assert(after =~= before.insert(at as int, item@));
        vstd::seq_lib::to_multiset_insert(before, at as int, item@);
        assert forall|i: int, j: int| 0 <= i < j < after.len() implies !ranks_before(
            #[trigger] after[j],
            #[trigger] after[i],
        ) by {
            if j == at {
                assert(after[i] == before[i]);
            } else if i == at {
                assert(after[j] == before[j - 1]);
                assert(ranks_before(item@, before[at as int]));
                if ranks_before(before[j - 1], item@) {
                    lemma_rank_transitive(before[j - 1], item@, before[at as int]);
                    if j - 1 == at {
                        lemma_rank_transitive(item@, before[at as int], item@);
                    }
                }
            } else {
                let i0 = if i < at { i } else { i - 1 };
                let j0 = if j < at { j } else { j - 1 };
                assert(after[i] == before[i0]);
                assert(after[j] == before[j0]);
            }
        }
    }
}

/// The answer that stands for the module `m`, which has a release.
fn answer(m: &Module) -> (r: SearchResponse)
    requires
        m.latest is Some,
    ensures
        r@ == hit(m@),
{
    let latest = match &m.latest {
        Some(v) => v.clone(),
        None => String::new(),
    };
    SearchResponse {
        author: m.author.clone(),
        name: m.name.clone(),
        description: m.description.clone(),
        latest,
        featured: m.featured,
        downloads: m.downloads,
    }
}

impl Registry {
    /// The modules with a release of which `q` is a part of the name or of
    /// the description: each of them once, featured modules first, then the
    /// more downloaded, then by name.
    pub fn search(&self, q: &str) -> (r: Vec<SearchResponse>)
        ensures
            ranked(hits_of(r@)),
            hits_of(r@).to_multiset() == found(self@.modules, q@).to_multiset(),
    {
        let needle = chars_of(q);
        let modules = self.modules();
        let ghost all = Registry::views(modules@);
        let mut out: Vec<SearchResponse> = Vec::new();
        let ghost by_query = |m: ModuleView| found_by(m, q@);
        let ghost to_hit = |m: ModuleView| hit(m);
        let mut i: usize = 0;
        assert(all.take(0) =~= Seq::<ModuleView>::empty());
        assert(hits_of(out@) =~= Seq::<Hit>::empty());
        assert(found(Seq::<ModuleView>::empty(), q@) =~= Seq::<Hit>::empty());
        while i < modules.len()
            invariant
                i <= modules.len(),
                needle@ == q@,
                all == Registry::views(modules@),
                by_query == |m: ModuleView| found_by(m, q@),
                to_hit == |m: ModuleView| hit(m),
                ranked(hits_of(out@)),
                hits_of(out@).to_multiset() == found(all.take(i as int), q@).to_multiset(),
            decreases modules.len() - i,
        {
            let m = &modules[i];
            let ghost seen = all.take(i as int);
            proof {
                assert(all[i as int] == m@);
                assert(all.take(i + 1) =~= seen.push(m@));
                Seq::lemma_filter_push(seen, m@, by_query);
            }
            let wanted = m.latest.is_some() && (contains_chars(&chars_of(m.name.as_str()), &needle)
                || contains_chars(&chars_of(m.description.as_str()), &needle));
            assert(wanted == found_by(m@, q@));
            if wanted {
                let item = answer(m);
                proof {
                    assert(found(seen.push(m@), q@) =~= found(seen, q@).push(hit(m@)));
                    vstd::seq_lib::to_multiset_build(found(seen, q@), hit(m@));
                }
                insert_ranked(&mut out, item);
            } else {
                assert(found(seen.push(m@), q@) =~= found(seen, q@));
            }
            i += 1;
        }
        assert(all.take(i as int) =~= all);
        out
    }
}

/// The place up to which two texts agree.
pub open spec fn agreement(a: Seq<char>, b: Seq<char>, from: int) -> int
    decreases a.len() - from,
{
    if 0 <= from < a.len() && from < b.len() && a[from] == b[from] {
        agreement(a, b, from + 1)
    } else {
        from
    }
}

/// Two texts agree up to the place of their agreement, and not beyond it.
proof fn lemma_agreement(a: Seq<char>, b: Seq<char>, from: int)
    requires
        0 <= from <= a.len(),
        from <= b.len(),
        a.take(from) == b.take(from),
    ensures
        ({
            let k = agreement(a, b, from);
            &&& from <= k <= a.len()
            &&& k <= b.len()
            &&& a.take(k) == b.take(k)
            &&& k < a.len() && k < b.len() ==> a[k] != b[k]
        }),
    decreases a.len() - from,
{
    if from < a.len() && from < b.len() && a[from] == b[from] {
        assert(a.take(from + 1) =~= a.take(from).push(a[from]));
        assert(b.take(from + 1) =~= b.take(from).push(b[from]));
        lemma_agreement(a, b, from + 1);
    }
}

/// Of two different texts, one comes before the other.
pub proof fn lemma_order_total(a: Seq<char>, b: Seq<char>)
    requires
        a != b,
    ensures
        comes_before(a, b) || comes_before(b, a),
{
    assert(a.take(0) =~= b.take(0));
    lemma_agreement(a, b, 0);
    let k = agreement(a, b, 0);
    if k == a.len() && k == b.len() {
        assert(a.take(k) =~= a);
        assert(b.take(k) =~= b);
    } else if k == a.len() {
        assert(first_difference(a, b, k));
    } else if k == b.len() {
        assert(first_difference(b, a, k));
    } else {
        if a[k] < b[k] {
            assert(first_difference(a, b, k));
        } else {
            assert(first_difference(b, a, k));
        }
    }
}

/// No two answers of a list are for modules of the same name.
pub open spec fn named_once(s: Seq<Hit>) -> bool {
    forall|i: int, j: int| 0 <= i < j < s.len() ==> (#[trigger] s[i]).name != (#[trigger] s[j]).name
}

/// The answer to a search is determined: two ranked lists of the same
/// answers, each for a module of its own name, are the same list.
pub proof fn law_ranking_is_unique(a: Seq<Hit>, b: Seq<Hit>)
    requires
        ranked(a),
        ranked(b),
        named_once(a),
        a.to_multiset() == b.to_multiset(),
    ensures
        a == b,
    decreases a.len(),
{
    a.to_multiset_ensures();
    b.to_multiset_ensures();
    assert(a.len() == b.len());
    if a.len() == 0 {
        assert(a =~= b);
    } else {
        let x = a[0];
        let y = b[0];
        assert(a.contains(x));
        assert(b.contains(y));
        assert(a.to_multiset().count(y) > 0);
        assert(a.contains(y));
        assert(b.to_multiset().count(x) > 0);
        assert(b.contains(x));
        let k = choose|k: int| 0 <= k < a.len() && a[k] == y;
        let m = choose|m: int| 0 <= m < b.len() && b[m] == x;
        if k != 0 && m != 0 {
            assert(!ranks_before(a[k], a[0]));
            assert(!ranks_before(b[m], b[0]));
            assert(a[0].name != a[k].name);
            lemma_order_total(x.name, y.name);
            assert(false);
        }
        assert(x == y);
        let ra = a.remove(0);
        let rb = b.remove(0);
        vstd::seq_lib::to_multiset_remove(a, 0);
        vstd::seq_lib::to_multiset_remove(b, 0);
        assert forall|i: int, j: int| 0 <= i < j < ra.len() implies !ranks_before(
            #[trigger] ra[j],
            #[trigger] ra[i],
        ) && ra[i].name != ra[j].name by {
            assert(ra[i] == a[i + 1] && ra[j] == a[j + 1]);
        }
        assert forall|i: int, j: int| 0 <= i < j < rb.len() implies !ranks_before(
            #[trigger] rb[j],
            #[trigger] rb[i],
        ) by {
            assert(rb[i] == b[i + 1] && rb[j] == b[j + 1]);
        }
        law_ranking_is_unique(ra, rb);
        assert(a =~= b) by {
            assert forall|i: int| 0 <= i < a.len() implies a[i] == b[i] by {
                if i > 0 {
                    assert(ra[i - 1] == a[i] && rb[i - 1] == b[i]);
                }
            }
        }
    }
}

/// The modules that a search finds are found once each: where no two
/// modules have the same name, no two answers have.
pub proof fn lemma_found_once(modules: Seq<ModuleView>, q: Seq<char>)
    requires
        forall|i: int, j: int|
            0 <= i < j < modules.len() ==> (#[trigger] modules[i]).name != (
            #[trigger] modules[j]).name,
    ensures
        named_once(found(modules, q)),
        forall|k: int|
            0 <= k < found(modules, q).len() ==> exists|i: int|
                0 <= i < modules.len() && modules[i].name == (#[trigger] found(modules, q)[k]).name,
    decreases modules.len(),
{
    let by_query = |m: ModuleView| found_by(m, q);
    if modules.len() == 0 {
        Seq::lemma_filter_len(modules, by_query);
    } else {
        let head = modules.drop_last();
        let x = modules.last();
        assert(modules =~= head.push(x));
        assert forall|i: int, j: int| 0 <= i < j < head.len() implies (#[trigger] head[i]).name != (
        #[trigger] head[j]).name by {
            assert(head[i] == modules[i] && head[j] == modules[j]);
        }
        lemma_found_once(head, q);
        Seq::lemma_filter_push(head, x, by_query);
        let t0 = found(head, q);
        let t = found(modules, q);
        if found_by(x, q) {
            assert(t =~= t0.push(hit(x)));
        } else {
            assert(t =~= t0);
        }
        assert forall|k: int| 0 <= k < t.len() implies exists|i: int|
            0 <= i < modules.len() && modules[i].name == (#[trigger] t[k]).name by {
            if k < t0.len() {
                assert(t[k] == t0[k]);
                let i = choose|i: int| 0 <= i < head.len() && head[i].name == t0[k].name;
                assert(modules[i].name == t[k].name);
            } else {
                assert(modules[modules.len() - 1].name == t[k].name);
            }
        }
        assert forall|i: int, j: int| 0 <= i < j < t.len() implies (#[trigger] t[i]).name != (
        #[trigger] t[j]).name by {
            assert(t[i] == t0[i]);
            if j < t0.len() {
                assert(t[j] == t0[j]);
            } else {
                let a = choose|a: int| 0 <= a < head.len() && head[a].name == t0[i].name;
                assert(modules[a].name != modules[modules.len() - 1].name);
            }
        }
    }
}

/// A list with the answers of a list in which each answer is for a module
/// of its own name is such a list itself.
pub proof fn lemma_named_once(s: Seq<Hit>, t: Seq<Hit>)
    requires
        named_once(s),
        s.to_multiset() == t.to_multiset(),
    ensures
        named_once(t),
{
    s.to_multiset_ensures();
    t.to_multiset_ensures();
    assert(s.no_duplicates()) by {
        assert forall|i: int, j: int| 0 <= i < s.len() && 0 <= j < s.len() && i != j implies s[i]
            != s[j] by {
            if i < j {
                assert(s[i].name != s[j].name);
            } else {
                assert(s[j].name != s[i].name);
            }
        }
    }
    s.lemma_multiset_has_no_duplicates();
    t.lemma_multiset_has_no_duplicates_conv();
    assert forall|i: int, j: int| 0 <= i < j < t.len() implies (#[trigger] t[i]).name != (
    #[trigger] t[j]).name by {
        assert(t.contains(t[i]) && t.contains(t[j]));
        assert(s.to_multiset().count(t[i]) > 0 && s.to_multiset().count(t[j]) > 0);
        assert(s.contains(t[i]) && s.contains(t[j]));
        let a = choose|a: int| 0 <= a < s.len() && s[a] == t[i];
        let b = choose|b: int| 0 <= b < s.len() && s[b] == t[j];
        assert(t[i] != t[j]);
        if a < b {
            assert(s[a].name != s[b].name);
        } else if b < a {
            assert(s[b].name != s[a].name);
        }
    }
}

/// What a search answers is determined by the registry and the query: any
/// two lists that meet the contract of the search are the same.
pub proof fn law_search_is_determined(
    registry: crate::registry::RegistryView,
    q: Seq<char>,
    a: Seq<Hit>,
    b: Seq<Hit>,
)
    requires
        registry.wf(),
        ranked(a),
        a.to_multiset() == found(registry.modules, q).to_multiset(),
        ranked(b),
        b.to_multiset() == found(registry.modules, q).to_multiset(),
    ensures
        a == b,
{
    lemma_found_once(registry.modules, q);
    lemma_named_once(found(registry.modules, q), a);
    law_ranking_is_unique(a, b);
}

} // verus!
