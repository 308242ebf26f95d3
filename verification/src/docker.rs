//! Typed in-memory form of the output manifest: a fixed version string
//! and a name-keyed collection of services. The collection keeps its
//! entries sorted by service name so that serialized output is
//! deterministic, and resolves duplicate names last-write-wins.

use vstd::prelude::*;
use vstd::pervasive::VecAdditionalExecFns;
use crate::text::{lex_lt, str_lt, lemma_lex_irreflexive, lemma_lex_transitive, lemma_lex_connected};

verus! {

/// The whole output manifest.
pub struct DockerCompose {
    pub version: String,
    pub services: ServiceTable,
}

/// One named unit of the output manifest.
pub struct DockerService {
    pub image: String,
    pub depends_on: Vec<String>,
    pub ports: Vec<DockerPort>,
    pub volumes: Vec<String>,
    pub environment: Vec<String>,
}

/// One port entry of a service.
pub struct DockerPort {
    pub target: i32,
    pub published: i32,
    pub protocol: String,
    pub mode: String,
}

/// Mathematical model of a port entry.
#[verifier::ext_equal]
pub struct PortView {
    pub target: int,
    pub published: int,
    pub protocol: Seq<char>,
    pub mode: Seq<char>,
}

/// Mathematical model of a service.
#[verifier::ext_equal]
pub struct ServiceView {
    pub image: Seq<char>,
    pub depends_on: Seq<Seq<char>>,
    pub ports: Seq<PortView>,
    pub volumes: Seq<Seq<char>>,
    pub environment: Seq<Seq<char>>,
}

/// Mathematical model of the whole manifest: the version string and the
/// service entries in their emission order.
#[verifier::ext_equal]
pub struct ComposeView {
    pub version: Seq<char>,
    pub services: Seq<(Seq<char>, ServiceView)>,
}

impl DeepView for DockerPort {
    type V = PortView;

    open spec fn deep_view(&self) -> PortView {
        PortView {
            target: self.target as int,
            published: self.published as int,
            protocol: self.protocol.deep_view(),
            mode: self.mode.deep_view(),
        }
    }
}

impl DeepView for DockerService {
    type V = ServiceView;

    open spec fn deep_view(&self) -> ServiceView {
        ServiceView {
            image: self.image.deep_view(),
            depends_on: self.depends_on.deep_view(),
            ports: self.ports.deep_view(),
            volumes: self.volumes.deep_view(),
            environment: self.environment.deep_view(),
        }
    }
}

impl Clone for DockerPort {
    fn clone(&self) -> (r: Self)
        ensures
            r == *self,
    {
        DockerPort {
            target: self.target,
            published: self.published,
            protocol: self.protocol.clone(),
            mode: self.mode.clone(),
        }
    }
}

impl DeepView for DockerCompose {
    type V = ComposeView;

    open spec fn deep_view(&self) -> ComposeView {
        ComposeView {
            version: self.version.deep_view(),
            services: self.services.deep_view(),
        }
    }
}

impl Clone for DockerService {
    fn clone(&self) -> (r: Self)
        ensures
            r.deep_view() == self.deep_view(),
    {
        let r = DockerService {
            image: self.image.clone(),
            depends_on: self.depends_on.clone(),
            ports: self.ports.clone(),
            volumes: self.volumes.clone(),
            environment: self.environment.clone(),
        };
        proof {
            lemma_cloned_string_vec_deep_view(self.depends_on, r.depends_on);
            lemma_cloned_string_vec_deep_view(self.volumes, r.volumes);
            lemma_cloned_string_vec_deep_view(self.environment, r.environment);
            assert(r.ports.deep_view() =~= self.ports.deep_view()) by {
                assert forall|i: int| 0 <= i < self.ports@.len() implies r.ports@[i].deep_view()
                    == self.ports@[i].deep_view() by {
                    assert(cloned::<DockerPort>(self.ports[i], r.ports[i]));
                }
            }
        }
        r
    }
}

/// A vector of cloned strings views element for element like its source.
proof fn lemma_cloned_string_vec_deep_view(a: Vec<String>, b: Vec<String>)
    requires
        a@.len() == b@.len(),
        forall|i: int| #![all_triggers] 0 <= i < a@.len() ==> cloned::<String>(a[i], b[i]),
    ensures
        b.deep_view() == a.deep_view(),
{
    assert(b.deep_view() =~= a.deep_view()) by {
        assert forall|i: int| 0 <= i < a@.len() implies b@[i]@ == a@[i]@ by {
            assert(cloned::<String>(a[i], b[i]));
        }
    }
}

/// The service entries in order of their keys: strictly ascending, so
/// keys are unique and the emission order is deterministic.
pub open spec fn sorted_keys(s: Seq<(Seq<char>, ServiceView)>) -> bool {
    forall|i: int, j: int| 0 <= i < j < s.len() ==> lex_lt(s[i].0, s[j].0)
}

/// The mapping that a sequence of (name, service) pairs denotes, with a
/// later pair overriding an earlier one of the same name.
pub open spec fn services_of(s: Seq<(Seq<char>, ServiceView)>) -> Map<Seq<char>, ServiceView>
    decreases s.len(),
{
    if s.len() == 0 {
        Map::empty()
    } else {
        services_of(s.drop_last()).insert(s.last().0, s.last().1)
    }
}

/// In a sequence with strictly ascending keys, all keys are distinct.
pub proof fn lemma_sorted_distinct(s: Seq<(Seq<char>, ServiceView)>)
    requires
        sorted_keys(s),
    ensures
        forall|i: int, j: int|
            0 <= i < s.len() && 0 <= j < s.len() && i != j ==> s[i].0 != s[j].0,
{
    assert forall|i: int, j: int|
        0 <= i < s.len() && 0 <= j < s.len() && i != j implies s[i].0 != s[j].0 by {
        lemma_lex_irreflexive(s[i].0);
        lemma_lex_irreflexive(s[j].0);
    }
}

/// A prefix of a sequence with strictly ascending keys has strictly
/// ascending keys.
pub proof fn lemma_sorted_prefix(s: Seq<(Seq<char>, ServiceView)>, n: int)
    requires
        sorted_keys(s),
        0 <= n <= s.len(),
    ensures
        sorted_keys(s.subrange(0, n)),
{
    assert forall|i: int, j: int|
        0 <= i < j < s.subrange(0, n).len() implies lex_lt(
        s.subrange(0, n)[i].0,
        s.subrange(0, n)[j].0,
    ) by {
        assert(s.subrange(0, n)[i] == s[i]);
        assert(s.subrange(0, n)[j] == s[j]);
    }
}

/// A key is in the denoted mapping exactly when some entry carries it.
pub proof fn lemma_services_of_contains(s: Seq<(Seq<char>, ServiceView)>, k: Seq<char>)
    ensures
        services_of(s).contains_key(k) <==> exists|i: int| 0 <= i < s.len() && s[i].0 == k,
    decreases s.len(),
{
    if s.len() > 0 {
        lemma_services_of_contains(s.drop_last(), k);
        if s.last().0 == k {
            assert(s[s.len() - 1].0 == k);
        } else {
            if services_of(s).contains_key(k) {
                let i = choose|i: int|
                    0 <= i < s.drop_last().len() && s.drop_last()[i].0 == k;
                assert(s[i].0 == k);
            }
            if exists|i: int| 0 <= i < s.len() && s[i].0 == k {
                let i = choose|i: int| 0 <= i < s.len() && s[i].0 == k;
                assert(i != s.len() - 1);
                assert(s.drop_last()[i].0 == k);
            }
        }
    }
}

/// With distinct keys, the denoted mapping takes each entry to its own
/// service.
pub proof fn lemma_services_of_index(s: Seq<(Seq<char>, ServiceView)>, i: int)
    requires
        sorted_keys(s),
        0 <= i < s.len(),
    ensures
        services_of(s).contains_key(s[i].0),
        services_of(s)[s[i].0] == s[i].1,
    decreases s.len(),
{
    lemma_sorted_distinct(s);
    if i < s.len() - 1 {
        lemma_sorted_prefix(s, s.len() - 1);
        assert(s.drop_last()[i] == s[i]);
        lemma_services_of_index(s.drop_last(), i);
        assert(s[i].0 != s.last().0);
    }
}

/// Overwriting the entry that already carries a key denotes inserting
/// under that key.
pub proof fn lemma_services_of_update(
    s: Seq<(Seq<char>, ServiceView)>,
    i: int,
    p: (Seq<char>, ServiceView),
)
    requires
        sorted_keys(s),
        0 <= i < s.len(),
        p.0 == s[i].0,
    ensures
        services_of(s.update(i, p)) == services_of(s).insert(p.0, p.1),
    decreases s.len(),
{
    let t = s.update(i, p);
    if i == s.len() - 1 {
        assert(t.drop_last() =~= s.drop_last());
        assert(t.last() == p);
        assert(services_of(s.drop_last()).insert(s[i].0, s[i].1).insert(p.0, p.1)
            =~= services_of(s.drop_last()).insert(p.0, p.1));
    } else {
        lemma_sorted_prefix(s, s.len() - 1);
        assert(s.drop_last()[i] == s[i]);
        assert(t.drop_last() =~= s.drop_last().update(i, p));
        assert(t.last() == s.last());
        lemma_services_of_update(s.drop_last(), i, p);
        lemma_sorted_distinct(s);
        assert(p.0 != s.last().0);
        assert(services_of(s.drop_last()).insert(p.0, p.1).insert(s.last().0, s.last().1)
            =~= services_of(s.drop_last()).insert(s.last().0, s.last().1).insert(p.0, p.1));
    }
}

/// Inserting an entry under a fresh key denotes inserting under that
/// key.
pub proof fn lemma_services_of_insert(
    s: Seq<(Seq<char>, ServiceView)>,
    i: int,
    p: (Seq<char>, ServiceView),
)
    requires
        0 <= i <= s.len(),
        forall|j: int| 0 <= j < s.len() ==> s[j].0 != p.0,
    ensures
        services_of(s.insert(i, p)) == services_of(s).insert(p.0, p.1),
    decreases s.len(),
{
    let t = s.insert(i, p);
    s.insert_ensures(i, p);
    if i == s.len() {
        assert(t =~= s.push(p));
        assert(s.push(p).drop_last() =~= s);
        assert(s.push(p).last() == p);
    } else {
        assert(t.last() == s.last());
        assert(t.drop_last() =~= s.drop_last().insert(i, p)) by {
            s.drop_last().insert_ensures(i, p);
        }
        assert(forall|j: int| 0 <= j < s.drop_last().len()
            ==> #[trigger] s.drop_last()[j].0 != p.0);
        lemma_services_of_insert(s.drop_last(), i, p);
        assert(p.0 != s.last().0);
        assert(services_of(s.drop_last()).insert(p.0, p.1).insert(s.last().0, s.last().1)
            =~= services_of(s.drop_last()).insert(s.last().0, s.last().1).insert(p.0, p.1));
    }
}

/// A sequence with strictly ascending keys is determined by the
/// mapping it denotes: building the same mapping twice yields
/// structurally identical entries.
pub proof fn lemma_sorted_services_unique(
    s1: Seq<(Seq<char>, ServiceView)>,
    s2: Seq<(Seq<char>, ServiceView)>,
)
    requires
        sorted_keys(s1),
        sorted_keys(s2),
        services_of(s1) == services_of(s2),
    ensures
        s1 == s2,
    decreases s1.len(),
{
    lemma_sorted_distinct(s1);
    lemma_sorted_distinct(s2);
    if s1.len() == 0 {
        if s2.len() > 0 {
            lemma_services_of_contains(s1, s2.last().0);
            lemma_services_of_contains(s2, s2.last().0);
            assert(s2[s2.len() - 1].0 == s2.last().0);
            assert(false);
        }
        assert(s1 =~= s2);
    } else if s2.len() == 0 {
        lemma_services_of_contains(s1, s1.last().0);
        lemma_services_of_contains(s2, s1.last().0);
        assert(s1[s1.len() - 1].0 == s1.last().0);
        assert(false);
    } else {
        let k1 = s1.last().0;
        let k2 = s2.last().0;
        lemma_services_of_contains(s1, k2);
        lemma_services_of_contains(s2, k1);
        lemma_services_of_index(s1, s1.len() - 1);
        lemma_services_of_index(s2, s2.len() - 1);
        assert(s1[s1.len() - 1].0 == k1);
        assert(s2[s2.len() - 1].0 == k2);
        let j2 = choose|j: int| 0 <= j < s2.len() && s2[j].0 == k1;
        let j1 = choose|j: int| 0 <= j < s1.len() && s1[j].0 == k2;
        if j2 < s2.len() - 1 && j1 < s1.len() - 1 {
            assert(lex_lt(k1, k2));
            assert(lex_lt(k2, k1));
            lemma_lex_transitive(k1, k2, k1);
            lemma_lex_irreflexive(k1);
            assert(false);
        }
        assert(k1 == k2);
        assert(services_of(s1)[k1] == s1.last().1);
        assert(services_of(s2)[k1] == s2.last().1);
        assert(s1.last() =~~= s2.last());
        // the last entries carry keys that no earlier entry carries,
        // so dropping them denotes removing that one key
        assert(!services_of(s1.drop_last()).contains_key(k1)) by {
            lemma_services_of_contains(s1.drop_last(), k1);
            if exists|j: int| 0 <= j < s1.drop_last().len() && s1.drop_last()[j].0 == k1 {
                let j = choose|j: int| 0 <= j < s1.drop_last().len() && s1.drop_last()[j].0 == k1;
                assert(s1[j].0 == k1);
                assert(false);
            }
        }
        assert(!services_of(s2.drop_last()).contains_key(k1)) by {
            lemma_services_of_contains(s2.drop_last(), k1);
            if exists|j: int| 0 <= j < s2.drop_last().len() && s2.drop_last()[j].0 == k1 {
                let j = choose|j: int| 0 <= j < s2.drop_last().len() && s2.drop_last()[j].0 == k1;
                assert(s2[j].0 == k1);
                assert(false);
            }
        }
        assert(services_of(s1.drop_last()) =~= services_of(s1).remove(k1));
        assert(services_of(s2.drop_last()) =~= services_of(s2).remove(k1));
        lemma_sorted_prefix(s1, s1.len() - 1);
        lemma_sorted_prefix(s2, s2.len() - 1);
        lemma_sorted_services_unique(s1.drop_last(), s2.drop_last());
        assert(s1.len() == s2.len());
        assert forall|j: int| 0 <= j < s1.len() implies s1[j] == s2[j] by {
            if j < s1.len() - 1 {
                assert(s1[j] == s1.drop_last()[j]);
                assert(s2[j] == s2.drop_last()[j]);
                assert(s1.drop_last()[j] == s2.drop_last()[j]);
            } else {
                assert(s1[j] == s1.last());
                assert(s2[j] == s2.last());
            }
        }
        assert(s1 =~= s2);
    }
}

/// The name-keyed collection of services, kept sorted by name.
pub struct ServiceTable {
    entries: Vec<(String, DockerService)>,
}

impl DeepView for ServiceTable {
    type V = Seq<(Seq<char>, ServiceView)>;

    closed spec fn deep_view(&self) -> Seq<(Seq<char>, ServiceView)> {
        self.entries.deep_view()
    }
}

impl ServiceTable {
    /// The entries stand in strictly ascending name order.
    pub open spec fn wf(&self) -> bool {
        sorted_keys(self.deep_view())
    }

    /// The mapping this table holds.
    pub open spec fn as_map(&self) -> Map<Seq<char>, ServiceView> {
        services_of(self.deep_view())
    }

    /// An empty table.
    pub fn new() -> (r: ServiceTable)
        ensures
            r.deep_view() == Seq::<(Seq<char>, ServiceView)>::empty(),
            r.wf(),
            r.as_map() == Map::<Seq<char>, ServiceView>::empty(),
    {
        let r = ServiceTable { entries: Vec::new() };
        proof {
            assert(r.deep_view() =~= Seq::<(Seq<char>, ServiceView)>::empty());
        }
        r
    }

    /// How many services the table holds.
    pub fn len(&self) -> (r: usize)
        ensures
            r == self.deep_view().len(),
    {
        self.entries.len()
    }

    /// The entries, in emission order.
    pub fn entries(&self) -> (r: &Vec<(String, DockerService)>)
        ensures
            r.deep_view() == self.deep_view(),
    {
        &self.entries
    }

    /// Puts a service under a name. A service already under that name
    /// is replaced: the later write wins. The entries stay in strictly
    /// ascending name order.
    pub fn insert(&mut self, name: String, service: DockerService)
        requires
            old(self).wf(),
        ensures
            final(self).wf(),
            final(self).as_map() == old(self).as_map().insert(name@, service.deep_view()),
    {
        let ghost dv = self.deep_view();
        let ghost p = (name@, service.deep_view());
        let n = self.entries.len();
        let mut i: usize = 0;
        while i < n && str_lt(self.entries[i].0.as_str(), name.as_str())
            invariant
                i <= n,
                n == self.entries@.len(),
                *self == *old(self),
                dv == self.deep_view(),
                sorted_keys(dv),
                forall|j: int| 0 <= j < i ==> lex_lt(#[trigger] dv[j].0, name@),
            decreases n - i,
        {
            i = i + 1;
        }
        let at_existing = i < n && !str_lt(name.as_str(), self.entries[i].0.as_str());
        if at_existing {
            proof {
                lemma_lex_connected(dv[i as int].0, name@);
                lemma_services_of_update(dv, i as int, p);
            }
            self.entries.set(i, (name, service));
            proof {
                assert(self.deep_view() =~= dv.update(i as int, p));
                assert forall|a: int, b: int|
                    0 <= a < b < self.deep_view().len() implies lex_lt(
                    self.deep_view()[a].0,
                    self.deep_view()[b].0,
                ) by {
                    assert(self.deep_view()[a].0 == dv[a].0);
                    assert(self.deep_view()[b].0 == dv[b].0);
                }
            }
        } else {
            proof {
                lemma_lex_irreflexive(name@);
                assert forall|j: int| 0 <= j < dv.len() implies dv[j].0 != name@ by {
                    if j >= i {
                        assert(lex_lt(name@, dv[i as int].0));
                        if j > i {
                            lemma_lex_transitive(name@, dv[i as int].0, dv[j].0);
                        }
                    }
                }
                lemma_services_of_insert(dv, i as int, p);
                dv.insert_ensures(i as int, p);
            }
            self.entries.insert(i, (name, service));
            proof {
                assert(self.deep_view() =~= dv.insert(i as int, p)) by {
                    assert(self.entries@ == old(self).entries@.insert(i as int, (name, service)));
                    old(self).entries@.insert_ensures(i as int, (name, service));
                }
                let t = dv.insert(i as int, p);
                assert forall|a: int, b: int|
                    0 <= a < b < t.len() implies lex_lt(t[a].0, t[b].0) by {
                    if b < i {
                        assert(t[a] == dv[a] && t[b] == dv[b]);
                    } else if b == i {
                        assert(t[a] == dv[a]);
                        assert(lex_lt(dv[a].0, name@));
                    } else {
                        assert(t[b] == dv[b - 1]);
                        assert(lex_lt(name@, dv[i as int].0));
                        if a < i {
                            assert(t[a] == dv[a]);
                        } else if a == i {
                            if b - 1 > i {
                                lemma_lex_transitive(name@, dv[i as int].0, dv[b - 1].0);
                            }
                        } else {
                            assert(t[a] == dv[a - 1]);
                        }
                    }
                }
            }
        }
    }

    /// Looks a service up by name.
    pub fn get(&self, name: &str) -> (r: Option<&DockerService>)
        requires
            self.wf(),
        ensures
            match r {
                Option::Some(s) => self.as_map().contains_key(name@)
                    && s.deep_view() == self.as_map()[name@],
                Option::None => !self.as_map().contains_key(name@),
            },
    {
        let n = self.entries.len();
        let mut i: usize = 0;
        while i < n
            invariant
                i <= n,
                n == self.entries@.len(),
                sorted_keys(self.deep_view()),
                forall|j: int| 0 <= j < i ==> #[trigger] self.deep_view()[j].0 != name@,
            decreases n - i,
        {
            let before = str_lt(self.entries[i].0.as_str(), name);
            let after = str_lt(name, self.entries[i].0.as_str());
            if !before && !after {
                proof {
                    lemma_lex_connected(self.deep_view()[i as int].0, name@);
                    lemma_services_of_index(self.deep_view(), i as int);
                }
                return Some(&self.entries[i].1);
            }
            proof {
                lemma_lex_irreflexive(name@);
            }
            i = i + 1;
        }
        proof {
            lemma_services_of_contains(self.deep_view(), name@);
        }
        None
    }
}

impl Clone for ServiceTable {
    fn clone(&self) -> (r: Self)
        ensures
            r.deep_view() == self.deep_view(),
    {
        let mut v: Vec<(String, DockerService)> = Vec::new();
        let mut i: usize = 0;
        while i < self.entries.len()
            invariant
                i <= self.entries@.len(),
                v@.len() == i,
                forall|j: int| 0 <= j < i ==> (#[trigger] v@[j]).deep_view()
                    == self.entries.deep_view()[j],
            decreases self.entries@.len() - i,
        {
            let ghost oldv = v@;
            let name = self.entries[i].0.clone();
            let service = self.entries[i].1.clone();
            v.push((name, service));
            proof {
                assert(v@ == oldv.push((name, service)));
                assert(v@[i as int] == (name, service));
                assert(v.deep_view()[i as int] == (name@, service.deep_view()));
                assert(name@ == self.entries@[i as int].0@);
                assert(service.deep_view() == self.entries@[i as int].1.deep_view());
                assert(v.deep_view()[i as int] == self.entries.deep_view()[i as int]);
                assert(forall|j: int| 0 <= j < i ==> oldv[j] == #[trigger] v@[j]);
            }
            i = i + 1;
        }
        proof {
            assert(v.deep_view() =~= self.entries.deep_view());
        }
        ServiceTable { entries: v }
    }
}

} // verus!
