//! Transaction signatures recorded per application program.

use crate::assoc_map::{lemma_first_index, AssocMap};
use crate::pubkey::Pubkey;
use vstd::prelude::*;

verus! {

/// The signatures of the transactions of one application.
#[derive(Debug)]
pub struct PERTXS {
    pub signatueres: Vec<String>,
}

impl View for PERTXS {
    type V = Seq<Seq<char>>;

    open spec fn view(&self) -> Seq<Seq<char>> {
        self.signatueres@.map_values(|s: String| s@)
    }
}

/// One shard of records, keyed by application program.
#[derive(Debug)]
pub struct PerDB {
    pub data: AssocMap<Pubkey, PERTXS>,
}

/// All shards, searched in order.
#[derive(Debug)]
pub struct FullPerDB {
    pub full_per_db: Vec<PerDB>,
}

/// The signatures of each application in one shard.
pub type ShardView = Map<Seq<u8>, Seq<Seq<char>>>;

/// The shards of a record store as plain values.
pub open spec fn shards_view(s: Seq<PerDB>) -> Seq<ShardView> {
    s.map_values(|p: PerDB| p.data@.map_values(|t: PERTXS| t@))
}

/// The first shard that holds application `app`, if any.
pub open spec fn first_holding(m: Seq<ShardView>, app: Seq<u8>) -> Option<int> {
    if exists|i: int| 0 <= i < m.len() && m[i].contains_key(app) {
        Some(
            choose|i: int|
                0 <= i < m.len() && m[i].contains_key(app) && forall|j: int|
                    0 <= j < i ==> !m[j].contains_key(app),
        )
    } else {
        None
    }
}

/// The signatures recorded for `app`, from the first shard that holds it.
pub open spec fn signatures_of(m: Seq<ShardView>, app: Seq<u8>) -> Option<Seq<Seq<char>>> {
    match first_holding(m, app) {
        Some(i) => Some(m[i][app]),
        None => None,
    }
}

/// The shards after recording signature `sig` for `app`: appended to the
/// first shard holding `app`, or in a new last shard of its own.
pub open spec fn shards_after_add(m: Seq<ShardView>, app: Seq<u8>, sig: Seq<char>) -> Seq<ShardView> {
    match first_holding(m, app) {
        Some(i) => m.update(i, m[i].insert(app, m[i][app].push(sig))),
        None => m.push(Map::empty().insert(app, seq![sig])),
    }
}

proof fn lemma_first_holding(m: Seq<ShardView>, app: Seq<u8>)
    requires
        exists|i: int| 0 <= i < m.len() && m[i].contains_key(app),
    ensures
        exists|i: int|
            0 <= i < m.len() && m[i].contains_key(app) && forall|j: int|
                0 <= j < i ==> !m[j].contains_key(app),
{
    let p = |x: ShardView| x.contains_key(app);
    let k = choose|i: int| 0 <= i < m.len() && m[i].contains_key(app);
    assert(p(m[k]));
    lemma_first_index(m, p);
}

/// Recording a signature for an application and then reading the
/// application's signatures gives back what it had, followed by that
/// signature; every other application keeps its signatures.
pub proof fn law_add_then_read(m: Seq<ShardView>, app: Seq<u8>, sig: Seq<char>, other: Seq<u8>)
    requires
        other != app,
    ensures
        signatures_of(shards_after_add(m, app, sig), app) == Some(
            match signatures_of(m, app) {
                Some(s) => s.push(sig),
                None => seq![sig],
            },
        ),
        signatures_of(shards_after_add(m, app, sig), other) == signatures_of(m, other),
{
    let a = shards_after_add(m, app, sig);
    match first_holding(m, app) {
        Some(i) => {
            lemma_first_holding(m, app);
            assert(a[i].contains_key(app));
            lemma_first_holding(a, app);
            let f = first_holding(a, app).unwrap();
            assert forall|j: int| 0 <= j < i implies !a[j].contains_key(app) by {
                assert(a[j] == m[j]);
            }
            assert(f == i);
            if exists|x: int| 0 <= x < m.len() && m[x].contains_key(other) {
                lemma_first_holding(m, other);
                let g = first_holding(m, other).unwrap();
                assert(a[g].contains_key(other));
                lemma_first_holding(a, other);
                let h = first_holding(a, other).unwrap();
                assert forall|j: int| 0 <= j < a.len() && a[j].contains_key(other) implies m[j].contains_key(other) by {
                    if j == i {
                        assert(a[j] == m[i].insert(app, m[i][app].push(sig)));
                    }
                }
                assert(h == g);
            } else {
                assert forall|j: int| 0 <= j < a.len() implies !a[j].contains_key(other) by {
                    if j == i {
                        assert(a[j] == m[i].insert(app, m[i][app].push(sig)));
                    }
                }
            }
        },
        None => {
            let n = m.len() as int;
            assert(a[n].contains_key(app));
            lemma_first_holding(a, app);
            let f = first_holding(a, app).unwrap();
            assert forall|j: int| 0 <= j < n implies !a[j].contains_key(app) by {
                assert(a[j] == m[j]);
            }
            assert(f == n);
            if exists|x: int| 0 <= x < m.len() && m[x].contains_key(other) {
                lemma_first_holding(m, other);
                let g = first_holding(m, other).unwrap();
                assert(a[g] == m[g]);
                lemma_first_holding(a, other);
                let h = first_holding(a, other).unwrap();
                assert forall|j: int| 0 <= j < g implies !a[j].contains_key(other) by {
                    assert(a[j] == m[j]);
                }
                assert(h == g);
            } else {
                assert forall|j: int| 0 <= j < a.len() implies !a[j].contains_key(other) by {
                    if j < n {
                        assert(a[j] == m[j]);
                    }
                }
            }
        },
    }
}

/// A copy of a list of strings.
fn copy_strings(v: &Vec<String>) -> (c: Vec<String>)
    ensures
        c@.map_values(|s: String| s@) == v@.map_values(|s: String| s@),
{
    let mut c: Vec<String> = Vec::new();
    let mut i: usize = 0;
    while i < v.len()
        invariant
            i <= v.len(),
            c@.map_values(|s: String| s@) == v@.take(i as int).map_values(|s: String| s@),
        decreases v.len() - i,
    {
        let s = v[i].clone();
        let ghost prev = c@;
        c.push(s);
        assert(c@ == prev.push(s));
        assert(v@.take(i + 1) =~= v@.take(i as int).push(v@[i as int]));
        assert(c@.map_values(|s: String| s@) =~= prev.map_values(|s: String| s@).push(s@));
        assert(c@.map_values(|s: String| s@) =~= v@.take(i + 1).map_values(|s: String| s@));
        i = i + 1;
    }
    assert(v@.take(v.len() as int) =~= v@);
    c
}

impl FullPerDB {
    /// Every shard is a well-formed map.
    pub open spec fn wf(&self) -> bool {
        forall|i: int| 0 <= i < self.full_per_db@.len() ==> (#[trigger] self.full_per_db@[i]).data.wf()
    }

    /// The shards as plain values.
    pub open spec fn shards(&self) -> Seq<ShardView> {
        shards_view(self.full_per_db@)
    }

    /// Records signature `tsx_signature` for application `app_program_id`.
    pub fn add(&mut self, app_program_id: Pubkey, tsx_signature: String)
        requires
            old(self).wf(),
        ensures
            final(self).wf(),
            final(self).shards() == shards_after_add(old(self).shards(), app_program_id@, tsx_signature@),
    {
        let ghost m = self.shards();
        let mut i: usize = 0;
        while i < self.full_per_db.len()
            invariant
                *self == *old(self),
                self.wf(),
                m == self.shards(),
                i <= self.full_per_db@.len(),
                forall|j: int| 0 <= j < i ==> !m[j].contains_key(app_program_id@),
            decreases self.full_per_db@.len() - i,
        {
            if self.full_per_db[i].data.contains_key(&app_program_id) {
                proof {
                    assert(m[i as int].contains_key(app_program_id@));
                    lemma_first_holding(m, app_program_id@);
                    let f = first_holding(m, app_program_id@).unwrap();
                    assert(f == i);
                }
                let current = self.full_per_db[i].data.get(&app_program_id).unwrap();
                let mut signatures = copy_strings(&current.signatueres);
                signatures.push(tsx_signature);
                let ghost prev = current@;
                let entry = PERTXS { signatueres: signatures };
                assert(entry@ =~= prev.push(tsx_signature@));
                let ghost old_shard = self.full_per_db@[i as int];
                let ghost old_all = self.full_per_db@;
                self.full_per_db[i].data.insert(app_program_id, entry);
                proof {
                    assert(self.full_per_db@ == old_all.update(i as int, self.full_per_db@[i as int]));
                    assert(first_holding(m, app_program_id@) == Some(i as int));
                    assert(m[i as int][app_program_id@] == prev);
                    let newv = self.full_per_db@[i as int].data@;
                    assert(newv == old_shard.data@.insert(app_program_id@, entry));
                    assert(newv.map_values(|t: PERTXS| t@) =~= old_shard.data@.map_values(
                        |t: PERTXS| t@,
                    ).insert(app_program_id@, prev.push(tsx_signature@)));
                    assert(self.shards() =~= shards_after_add(m, app_program_id@, tsx_signature@));
                }
                return;
            }
            i = i + 1;
        }
        let mut data: AssocMap<Pubkey, PERTXS> = AssocMap::new();
        let mut signatures: Vec<String> = Vec::new();
        signatures.push(tsx_signature);
        let entry = PERTXS { signatueres: signatures };
        assert(entry@ =~= seq![tsx_signature@]);
        data.insert(app_program_id, entry);
        let ghost shard = data@.map_values(|t: PERTXS| t@);
        assert(shard =~= Map::<Seq<u8>, Seq<Seq<char>>>::empty().insert(
            app_program_id@,
            seq![tsx_signature@],
        ));
        self.full_per_db.push(PerDB { data });
        assert(self.shards() =~= shards_after_add(m, app_program_id@, tsx_signature@));
    }

    /// The signatures recorded for `app_program_id`, if any.
    pub fn get_signature_for_add(&mut self, app_program_id: Pubkey) -> (r: Option<Vec<String>>)
        requires
            old(self).wf(),
        ensures
            *final(self) == *old(self),
            match r {
                Some(v) => signatures_of(old(self).shards(), app_program_id@) == Some(
                    v@.map_values(|s: String| s@),
                ),
                None => signatures_of(old(self).shards(), app_program_id@) is None,
            },
    {
        let ghost m = self.shards();
        let mut i: usize = 0;
        while i < self.full_per_db.len()
            invariant
                *self == *old(self),
                self.wf(),
                m == self.shards(),
                i <= self.full_per_db@.len(),
                forall|j: int| 0 <= j < i ==> !m[j].contains_key(app_program_id@),
            decreases self.full_per_db@.len() - i,
        {
            if self.full_per_db[i].data.contains_key(&app_program_id) {
                proof {
                    assert(m[i as int].contains_key(app_program_id@));
                    lemma_first_holding(m, app_program_id@);
                    let f = first_holding(m, app_program_id@).unwrap();
                    assert(f == i);
                }
                let current = self.full_per_db[i].data.get(&app_program_id).unwrap();
                return Some(copy_strings(&current.signatueres));
            }
            i = i + 1;
        }
        None
    }
}

} // verus!
