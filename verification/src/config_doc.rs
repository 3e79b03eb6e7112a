//! Configuration documents: nested key/value mappings with scalar leaves,
//! the overlay-wins merge, and typed accessors on the merged view.
//!
//! A document is modelled in specifications by `ValModel`, a mathematical
//! value tree whose tables are maps from key to model value. The merge of a
//! base document with an overlay document is specified by path: at every key
//! path the overlay wins on conflict, recursively for nested tables, and the
//! base supplies defaults (`merged_leaf`, `merged_defines`, `is_model_merge`).

use vstd::prelude::*;
use crate::strutil::str_eq;

verus! {

broadcast use vstd::map::group_map_axioms;

/// A configuration value: a scalar leaf or a nested table.
pub enum ConfigValue {
    Str(String),
    Int(i64),
    Bool(bool),
    Table(ConfigTable),
}

/// A key/value mapping; nesting is through `ConfigValue::Table`.
/// When a key occurs more than once, the first entry is the one in force.
pub struct ConfigTable {
    pub entries: Vec<(String, ConfigValue)>,
}

/// Mathematical model of a configuration value.
pub enum ValModel {
    Str(Seq<char>),
    Int(int),
    Bool(bool),
    Table(Map<Seq<char>, ValModel>),
}

/// Model of a configuration value.
pub open spec fn value_view(v: ConfigValue) -> ValModel
    decreases v,
{
    match v {
        ConfigValue::Str(s) => ValModel::Str(s@),
        ConfigValue::Int(i) => ValModel::Int(i as int),
        ConfigValue::Bool(b) => ValModel::Bool(b),
        ConfigValue::Table(t) => ValModel::Table(entries_view(t.entries@)),
    }
}

/// Model of an entry list: a map in which the first entry for a key wins.
pub open spec fn entries_view(s: Seq<(String, ConfigValue)>) -> Map<Seq<char>, ValModel>
    decreases s,
{
    if s.len() == 0 {
        Map::empty()
    } else {
        entries_view(s.drop_first()).insert(s[0].0@, value_view(s[0].1))
    }
}

/// Model of a table.
pub open spec fn table_view(t: ConfigTable) -> Map<Seq<char>, ValModel> {
    entries_view(t.entries@)
}

/// The scalar leaf a model value holds at a key path, if any.
pub open spec fn model_leaf_at(m: ValModel, p: Seq<Seq<char>>) -> Option<ValModel>
    decreases p.len(),
{
    if p.len() == 0 {
        match m {
            ValModel::Table(_) => None,
            _ => Some(m),
        }
    } else {
        match m {
            ValModel::Table(mm) => if mm.dom().contains(p[0]) {
                model_leaf_at(mm[p[0]], p.drop_first())
            } else {
                None
            },
            _ => None,
        }
    }
}

/// True when a model value holds anything (leaf or table) at a key path.
pub open spec fn model_defines(m: ValModel, p: Seq<Seq<char>>) -> bool
    decreases p.len(),
{
    if p.len() == 0 {
        true
    } else {
        match m {
            ValModel::Table(mm) => mm.dom().contains(p[0])
                && model_defines(mm[p[0]], p.drop_first()),
            _ => false,
        }
    }
}

/// The scalar leaf the merge of `b` and `o` holds at a key path: tables are
/// merged key by key, recursively; anywhere else the overlay replaces the
/// base wholesale.
pub open spec fn merged_leaf(b: ValModel, o: ValModel, p: Seq<Seq<char>>) -> Option<ValModel>
    decreases p.len(),
{
    match (b, o) {
        (ValModel::Table(bm), ValModel::Table(om)) => if p.len() == 0 {
            None
        } else {
            let k = p[0];
            let rest = p.drop_first();
            if bm.dom().contains(k) && om.dom().contains(k) {
                merged_leaf(bm[k], om[k], rest)
            } else if om.dom().contains(k) {
                model_leaf_at(om[k], rest)
            } else if bm.dom().contains(k) {
                model_leaf_at(bm[k], rest)
            } else {
                None
            }
        },
        _ => model_leaf_at(o, p),
    }
}

/// Whether the merge of `b` and `o` holds anything at a key path.
pub open spec fn merged_defines(b: ValModel, o: ValModel, p: Seq<Seq<char>>) -> bool
    decreases p.len(),
{
    match (b, o) {
        (ValModel::Table(bm), ValModel::Table(om)) => if p.len() == 0 {
            true
        } else {
            let k = p[0];
            let rest = p.drop_first();
            if bm.dom().contains(k) && om.dom().contains(k) {
                merged_defines(bm[k], om[k], rest)
            } else if om.dom().contains(k) {
                model_defines(om[k], rest)
            } else if bm.dom().contains(k) {
                model_defines(bm[k], rest)
            } else {
                false
            }
        },
        _ => model_defines(o, p),
    }
}

/// `r` is the overlay-wins merge of base `b` with overlay `o`: at every key
/// path it holds exactly the merged leaf, and it defines exactly the merged
/// key paths.
pub open spec fn is_model_merge(b: ValModel, o: ValModel, r: ValModel) -> bool {
    &&& forall|p: Seq<Seq<char>>| #[trigger] model_leaf_at(r, p) == merged_leaf(b, o, p)
    &&& forall|p: Seq<Seq<char>>| #[trigger] model_defines(r, p) == merged_defines(b, o, p)
}

/// When base and overlay are not both tables, the overlay itself is their
/// merge.
proof fn lemma_overlay_replaces(b: ValModel, o: ValModel)
    requires
        !(b is Table && o is Table),
    ensures
        is_model_merge(b, o, o),
{
    assert forall|p: Seq<Seq<char>>| #[trigger] model_leaf_at(o, p) == merged_leaf(b, o, p) by {}
    assert forall|p: Seq<Seq<char>>| #[trigger] model_defines(o, p) == merged_defines(b, o, p) by {}
}

/// A table whose keys are the union of the two key sets, holding the merged
/// value on shared keys and the single present value elsewhere, is the merge
/// of the two tables.
proof fn lemma_table_merge(
    bm: Map<Seq<char>, ValModel>,
    om: Map<Seq<char>, ValModel>,
    rm: Map<Seq<char>, ValModel>,
)
    requires
        forall|k: Seq<char>| #[trigger] rm.dom().contains(k)
            <==> (bm.dom().contains(k) || om.dom().contains(k)),
        forall|k: Seq<char>| rm.dom().contains(k)
            ==> merged_entry_fact(bm, om, k, #[trigger] rm[k]),
    ensures
        is_model_merge(ValModel::Table(bm), ValModel::Table(om), ValModel::Table(rm)),
{
    let b = ValModel::Table(bm);
    let o = ValModel::Table(om);
    let r = ValModel::Table(rm);
    assert forall|p: Seq<Seq<char>>| #[trigger] model_leaf_at(r, p) == merged_leaf(b, o, p) by {
        if p.len() > 0 {
            let k = p[0];
            let rest = p.drop_first();
            if rm.dom().contains(k) {
                assert(merged_entry_fact(bm, om, k, rm[k]));
                if bm.dom().contains(k) && om.dom().contains(k) {
                    assert(model_leaf_at(rm[k], rest) == merged_leaf(bm[k], om[k], rest));
                }
                assert(model_leaf_at(r, p) == model_leaf_at(rm[k], rest));
            } else {
                assert(!bm.dom().contains(k) && !om.dom().contains(k));
                assert(model_leaf_at(r, p) is None);
            }
        }
    }
    assert forall|p: Seq<Seq<char>>| #[trigger] model_defines(r, p) == merged_defines(b, o, p) by {
        if p.len() > 0 {
            let k = p[0];
            let rest = p.drop_first();
            if rm.dom().contains(k) {
                assert(merged_entry_fact(bm, om, k, rm[k]));
                if bm.dom().contains(k) && om.dom().contains(k) {
                    assert(model_defines(rm[k], rest) == merged_defines(bm[k], om[k], rest));
                }
                assert(model_defines(r, p) == model_defines(rm[k], rest));
            } else {
                assert(!bm.dom().contains(k) && !om.dom().contains(k));
                assert(!model_defines(r, p));
            }
        }
    }
}

/// What the merged table must hold at key `k`, given what base and overlay
/// hold there.
spec fn merged_entry_fact(
    bm: Map<Seq<char>, ValModel>,
    om: Map<Seq<char>, ValModel>,
    k: Seq<char>,
    v: ValModel,
) -> bool {
    if bm.dom().contains(k) && om.dom().contains(k) {
        is_model_merge(bm[k], om[k], v)
    } else if om.dom().contains(k) {
        v == om[k]
    } else if bm.dom().contains(k) {
        v == bm[k]
    } else {
        false
    }
}

/// True when the overlay value leaves key path `p` untouched: somewhere
/// along `p` the overlay has no entry, and above that point only tables.
/// At such a path the merged document shows the base's value.
pub open spec fn model_transparent_at(o: ValModel, p: Seq<Seq<char>>) -> bool
    decreases p.len(),
{
    if p.len() == 0 {
        false
    } else {
        match o {
            ValModel::Table(om) => if !om.dom().contains(p[0]) {
                true
            } else if p.len() == 1 {
                false
            } else {
                model_transparent_at(om[p[0]], p.drop_first())
            },
            _ => false,
        }
    }
}

/// Overlay-wins, first half: wherever the overlay holds a scalar leaf, the
/// merged document holds the overlay's value.
pub proof fn lemma_merge_overlay_wins(b: ValModel, o: ValModel, p: Seq<Seq<char>>)
    requires
        model_leaf_at(o, p) is Some,
    ensures
        merged_leaf(b, o, p) == model_leaf_at(o, p),
    decreases p.len(),
{
    if p.len() == 0 {
    } else {
        match (b, o) {
            (ValModel::Table(bm), ValModel::Table(om)) => {
                let k = p[0];
                if bm.dom().contains(k) && om.dom().contains(k) {
                    lemma_merge_overlay_wins(bm[k], om[k], p.drop_first());
                }
            },
            _ => {},
        }
    }
}

/// Overlay-wins, second half: wherever the overlay leaves a key path
/// untouched, the merged document holds the base's value, and the overlay
/// itself holds no leaf there.
pub proof fn lemma_merge_base_default(b: ValModel, o: ValModel, p: Seq<Seq<char>>)
    requires
        model_transparent_at(o, p),
    ensures
        merged_leaf(b, o, p) == model_leaf_at(b, p),
        model_leaf_at(o, p) is None,
    decreases p.len(),
{
    if p.len() == 0 {
    } else {
        match o {
            ValModel::Table(om) => {
                let k = p[0];
                if om.dom().contains(k) {
                    match b {
                        ValModel::Table(bm) => {
                            if bm.dom().contains(k) {
                                lemma_merge_base_default(bm[k], om[k], p.drop_first());
                            } else {
                                lemma_merge_base_default(ValModel::Bool(false), om[k], p.drop_first());
                            }
                        },
                        _ => {
                            lemma_merge_base_default(ValModel::Bool(false), om[k], p.drop_first());
                        },
                    }
                }
            },
            _ => {},
        }
    }
}

/// Overlay-wins at the accessor level: a merged document has a top-level
/// key exactly when base or overlay has it; a scalar of the overlay wins,
/// and a scalar of the base shows through where the overlay has nothing.
pub proof fn lemma_merge_top_level(
    bm: Map<Seq<char>, ValModel>,
    om: Map<Seq<char>, ValModel>,
    rm: Map<Seq<char>, ValModel>,
    k: Seq<char>,
)
    requires
        is_model_merge(ValModel::Table(bm), ValModel::Table(om), ValModel::Table(rm)),
    ensures
        rm.dom().contains(k) == (bm.dom().contains(k) || om.dom().contains(k)),
        om.dom().contains(k) && !(om[k] is Table)
            ==> rm.dom().contains(k) && rm[k] == om[k],
        !om.dom().contains(k) && bm.dom().contains(k) && !(bm[k] is Table)
            ==> rm.dom().contains(k) && rm[k] == bm[k],
{
    let p = seq![k];
    assert(p.len() == 1 && p[0] == k);
    let rest = p.drop_first();
    assert(rest.len() == 0);
    assert(model_defines(ValModel::Table(rm), p)
        == merged_defines(ValModel::Table(bm), ValModel::Table(om), p));
    assert(model_leaf_at(ValModel::Table(rm), p)
        == merged_leaf(ValModel::Table(bm), ValModel::Table(om), p));
    if rm.dom().contains(k) {
        assert(model_defines(rm[k], rest));
        assert(model_leaf_at(rm[k], rest) == if rm[k] is Table {
            None::<ValModel>
        } else {
            Some(rm[k])
        });
    }
    if om.dom().contains(k) {
        assert(model_defines(om[k], rest));
        assert(model_leaf_at(om[k], rest) == if om[k] is Table {
            None::<ValModel>
        } else {
            Some(om[k])
        });
    }
    if bm.dom().contains(k) {
        assert(model_defines(bm[k], rest));
        assert(model_leaf_at(bm[k], rest) == if bm[k] is Table {
            None::<ValModel>
        } else {
            Some(bm[k])
        });
    }
    if bm.dom().contains(k) && om.dom().contains(k) {
        if bm[k] is Table && om[k] is Table {
            assert(merged_defines(bm[k], om[k], rest));
            assert(merged_leaf(bm[k], om[k], rest) is None);
        } else {
            assert(merged_defines(bm[k], om[k], rest) == model_defines(om[k], rest));
            assert(merged_leaf(bm[k], om[k], rest) == model_leaf_at(om[k], rest));
        }
    }
}

/// The model of an entry list contains a key exactly when some entry has it.
proof fn lemma_entries_view_dom(s: Seq<(String, ConfigValue)>, k: Seq<char>)
    ensures
        entries_view(s).dom().contains(k) == exists|j: int| 0 <= j < s.len() && s[j].0@ == k,
    decreases s.len(),
{
    if s.len() == 0 {
    } else {
        lemma_entries_view_dom(s.drop_first(), k);
        if s[0].0@ == k {
            assert(exists|j: int| 0 <= j < s.len() && s[j].0@ == k);
        } else {
            if exists|j: int| 0 <= j < s.len() && s[j].0@ == k {
                let j = choose|j: int| 0 <= j < s.len() && s[j].0@ == k;
                assert(s.drop_first()[j - 1] == s[j]);
                assert(exists|j2: int| 0 <= j2 < s.drop_first().len() && s.drop_first()[j2].0@ == k);
            }
            if entries_view(s.drop_first()).dom().contains(k) {
                let j2 = choose|j2: int| 0 <= j2 < s.drop_first().len() && s.drop_first()[j2].0@ == k;
                assert(s[j2 + 1] == s.drop_first()[j2]);
                assert(exists|j: int| 0 <= j < s.len() && s[j].0@ == k);
            }
        }
    }
}

/// Appending an entry changes the model only where the key was absent.
proof fn lemma_entries_view_push(s: Seq<(String, ConfigValue)>, e: (String, ConfigValue))
    ensures
        entries_view(s.push(e)) == if entries_view(s).dom().contains(e.0@) {
            entries_view(s)
        } else {
            entries_view(s).insert(e.0@, value_view(e.1))
        },
    decreases s.len(),
{
    if s.len() == 0 {
        let se = s.push(e);
        assert(se.len() == 1);
        assert(se[0] == e);
        assert(se.drop_first() =~= s);
        assert(entries_view(se) == entries_view(se.drop_first()).insert(se[0].0@, value_view(se[0].1)));
        assert(entries_view(s) == Map::<Seq<char>, ValModel>::empty());
        assert(!entries_view(s).dom().contains(e.0@));
        assert(entries_view(se) == entries_view(s).insert(e.0@, value_view(e.1)));
    } else {
        assert(s.push(e).drop_first() =~= s.drop_first().push(e));
        lemma_entries_view_push(s.drop_first(), e);
        let k0 = s[0].0@;
        let tail = entries_view(s.drop_first());
        assert(s.push(e)[0] == s[0]);
        if entries_view(s).dom().contains(e.0@) {
            if tail.dom().contains(e.0@) {
                assert(entries_view(s.push(e)) == entries_view(s));
            } else {
                assert(e.0@ == k0);
                assert(entries_view(s.push(e)) =~= entries_view(s));
            }
        } else {
            assert(e.0@ != k0);
            assert(!tail.dom().contains(e.0@));
            assert(entries_view(s.push(e)) =~= entries_view(s).insert(e.0@, value_view(e.1)));
        }
    }
}

/// At the first entry holding a key, the model holds that entry's value.
proof fn lemma_entries_view_first(s: Seq<(String, ConfigValue)>, k: Seq<char>, i: int)
    requires
        0 <= i < s.len(),
        s[i].0@ == k,
        forall|j: int| 0 <= j < i ==> s[j].0@ != k,
    ensures
        entries_view(s).dom().contains(k),
        entries_view(s)[k] == value_view(s[i].1),
    decreases i,
{
    if i == 0 {
    } else {
        assert(s.drop_first()[i - 1] == s[i]);
        assert forall|j: int| 0 <= j < i - 1 implies s.drop_first()[j].0@ != k by {
            assert(s.drop_first()[j] == s[j + 1]);
        }
        lemma_entries_view_first(s.drop_first(), k, i - 1);
    }
}

/// First index in the entry list whose key is `key`, with what the model
/// says about it.
fn find_entry(entries: &Vec<(String, ConfigValue)>, key: &str) -> (r: Option<usize>)
    ensures
        match r {
            Some(j) => {
                &&& j < entries@.len()
                &&& entries@[j as int].0@ == key@
                &&& entries_view(entries@).dom().contains(key@)
                &&& entries_view(entries@)[key@] == value_view(entries@[j as int].1)
            },
            None => !entries_view(entries@).dom().contains(key@),
        },
{
    let n = entries.len();
    let mut i: usize = 0;
    while i < n
        invariant
            n == entries@.len(),
            i <= n,
            forall|j: int| 0 <= j < i ==> entries@[j].0@ != key@,
        decreases n - i,
    {
        if str_eq(entries[i].0.as_str(), key) {
            proof {
                lemma_entries_view_first(entries@, key@, i as int);
            }
            return Some(i);
        }
        i += 1;
    }
    proof {
        lemma_entries_view_dom(entries@, key@);
    }
    None
}

/// A deep copy of a value; the copy has the same model.
fn copy_value(v: &ConfigValue) -> (r: ConfigValue)
    ensures
        value_view(r) == value_view(*v),
    decreases *v,
{
    match v {
        ConfigValue::Str(s) => ConfigValue::Str(s.clone()),
        ConfigValue::Int(i) => ConfigValue::Int(*i),
        ConfigValue::Bool(b) => ConfigValue::Bool(*b),
        ConfigValue::Table(t) => ConfigValue::Table(copy_table(t)),
    }
}

/// A deep copy of a table; the copy has the same model.
fn copy_table(t: &ConfigTable) -> (r: ConfigTable)
    ensures
        table_view(r) == table_view(*t),
    decreases *t,
{
    let n = t.entries.len();
    let mut out: Vec<(String, ConfigValue)> = Vec::new();
    let mut i: usize = 0;
    while i < n
        invariant
            n == t.entries@.len(),
            i <= n,
            out@.len() == i,
            forall|j: int| 0 <= j < i ==> (#[trigger] out@[j]).0@ == t.entries@[j].0@
                && value_view(out@[j].1) == value_view(t.entries@[j].1),
        decreases n - i,
    {
        proof {
            assert(decreases_to!(*t => t.entries@[i as int].1));
        }
        let k = t.entries[i].0.clone();
        let cv = copy_value(&t.entries[i].1);
        out.push((k, cv));
        i += 1;
    }
    proof {
        lemma_entries_view_congruent(out@, t.entries@);
    }
    ConfigTable { entries: out }
}

/// Entry lists equal key-for-key and model-for-model have the same model.
proof fn lemma_entries_view_congruent(s1: Seq<(String, ConfigValue)>, s2: Seq<(String, ConfigValue)>)
    requires
        s1.len() == s2.len(),
        forall|j: int| 0 <= j < s1.len() ==> (#[trigger] s1[j]).0@ == s2[j].0@
            && value_view(s1[j].1) == value_view(s2[j].1),
    ensures
        entries_view(s1) == entries_view(s2),
    decreases s1.len(),
{
    if s1.len() == 0 {
    } else {
        assert forall|j: int| 0 <= j < s1.drop_first().len() implies
            (#[trigger] s1.drop_first()[j]).0@ == s2.drop_first()[j].0@
            && value_view(s1.drop_first()[j].1) == value_view(s2.drop_first()[j].1) by {
            assert(s1.drop_first()[j] == s1[j + 1]);
            assert(s2.drop_first()[j] == s2[j + 1]);
        }
        lemma_entries_view_congruent(s1.drop_first(), s2.drop_first());
    }
}

/// Merges a base table with an overlay table; the result's model is the
/// overlay-wins merge of the two models.
pub fn merge_tables(base: &ConfigTable, overlay: &ConfigTable) -> (r: ConfigTable)
    ensures
        is_model_merge(
            ValModel::Table(table_view(*base)),
            ValModel::Table(table_view(*overlay)),
            ValModel::Table(table_view(r)),
        ),
    decreases *overlay,
{
    let ghost bm = table_view(*base);
    let ghost om = table_view(*overlay);
    let mut out: Vec<(String, ConfigValue)> = Vec::new();
    let n = base.entries.len();
    let mut i: usize = 0;
    while i < n
        invariant
            n == base.entries@.len(),
            i <= n,
            bm == table_view(*base),
            om == table_view(*overlay),
            forall|k: Seq<char>| #[trigger] entries_view(out@).dom().contains(k)
                <==> exists|j: int| 0 <= j < i && base.entries@[j].0@ == k,
            forall|k: Seq<char>| entries_view(out@).dom().contains(k)
                ==> merged_entry_fact(bm, om, k, #[trigger] entries_view(out@)[k]),
        decreases n - i,
    {
        let key = &base.entries[i].0;
        let ghost kview = key@;
        proof {
            lemma_entries_view_dom(base.entries@, kview);
            assert(base.entries@[i as int].0@ == kview);
            assert(bm.dom().contains(kview));
        }
        let merged_value: ConfigValue = match find_entry(&overlay.entries, key.as_str()) {
            Some(j) => {
                match (&base.entries[i].1, &overlay.entries[j].1) {
                    (ConfigValue::Table(bt), ConfigValue::Table(ot)) => {
                        proof {
                            assert(decreases_to!(*overlay => overlay.entries@[j as int].1));
                        }
                        ConfigValue::Table(merge_tables(bt, ot))
                    },
                    _ => {
                        proof {
                            lemma_overlay_replaces(
                                value_view(base.entries@[i as int].1),
                                value_view(overlay.entries@[j as int].1),
                            );
                        }
                        copy_value(&overlay.entries[j].1)
                    },
                }
            },
            None => copy_value(&base.entries[i].1),
        };
        proof {
            if !entries_view(out@).dom().contains(kview) {
                // This is the first base entry with this key, so the base
                // model holds this entry's value there.
                lemma_entries_view_first(base.entries@, kview, i as int);
                assert(merged_entry_fact(bm, om, kview, value_view(merged_value)));
            }
            lemma_entries_view_push(out@, (base.entries@[i as int].0, merged_value));
        }
        let ghost prev = out@;
        let key_copy = base.entries[i].0.clone();
        out.push((key_copy, merged_value));
        proof {
            assert(out@ == prev.push((base.entries@[i as int].0, merged_value)));
            assert forall|k: Seq<char>| #[trigger] entries_view(out@).dom().contains(k)
                implies exists|j: int| 0 <= j <= i && base.entries@[j].0@ == k by {
                if k != kview {
                    assert(entries_view(prev).dom().contains(k));
                } else {
                    assert(base.entries@[i as int].0@ == k);
                }
            }
            assert forall|k: Seq<char>| (exists|j: int| 0 <= j <= i && base.entries@[j].0@ == k)
                implies #[trigger] entries_view(out@).dom().contains(k) by {
                let j = choose|j: int| 0 <= j <= i && base.entries@[j].0@ == k;
                if j < i {
                    assert(entries_view(prev).dom().contains(k));
                }
            }
        }
        i += 1;
    }
    let m = overlay.entries.len();
    let mut j: usize = 0;
    while j < m
        invariant
            m == overlay.entries@.len(),
            n == base.entries@.len(),
            bm == table_view(*base),
            om == table_view(*overlay),
            j <= m,
            forall|k: Seq<char>| #[trigger] entries_view(out@).dom().contains(k)
                <==> (exists|j2: int| 0 <= j2 < n && base.entries@[j2].0@ == k)
                    || (exists|j2: int| 0 <= j2 < j && overlay.entries@[j2].0@ == k),
            forall|k: Seq<char>| entries_view(out@).dom().contains(k)
                ==> merged_entry_fact(bm, om, k, #[trigger] entries_view(out@)[k]),
        decreases m - j,
    {
        let key = &overlay.entries[j].0;
        let ghost kview = key@;
        proof {
            lemma_entries_view_dom(overlay.entries@, kview);
            assert(overlay.entries@[j as int].0@ == kview);
            assert(om.dom().contains(kview));
            lemma_entries_view_dom(base.entries@, kview);
        }
        match find_entry(&base.entries, key.as_str()) {
            Some(_) => {},
            None => {
                let ov = copy_value(&overlay.entries[j].1);
                proof {
                    if !entries_view(out@).dom().contains(kview) {
                        lemma_entries_view_first(overlay.entries@, kview, j as int);
                        assert(merged_entry_fact(bm, om, kview, value_view(ov)));
                    }
                    lemma_entries_view_push(out@, (overlay.entries@[j as int].0, ov));
                }
                let ghost prev = out@;
                let key_copy = overlay.entries[j].0.clone();
                out.push((key_copy, ov));
                proof {
                    assert(out@ == prev.push((overlay.entries@[j as int].0, ov)));
                    assert forall|k: Seq<char>| #[trigger] entries_view(out@).dom().contains(k)
                        implies (exists|j2: int| 0 <= j2 < n && base.entries@[j2].0@ == k)
                            || (exists|j2: int| 0 <= j2 <= j && overlay.entries@[j2].0@ == k) by {
                        if k != kview {
                            assert(entries_view(prev).dom().contains(k));
                        } else {
                            assert(overlay.entries@[j as int].0@ == k);
                        }
                    }
                    assert forall|k: Seq<char>|
                        (exists|j2: int| 0 <= j2 < n && base.entries@[j2].0@ == k)
                            || (exists|j2: int| 0 <= j2 <= j && overlay.entries@[j2].0@ == k)
                        implies #[trigger] entries_view(out@).dom().contains(k) by {
                        if k != kview {
                            assert(entries_view(prev).dom().contains(k));
                        }
                    }
                }
            },
        }
        j += 1;
    }
    proof {
        assert forall|k: Seq<char>| #[trigger] entries_view(out@).dom().contains(k)
            <==> (bm.dom().contains(k) || om.dom().contains(k)) by {
            lemma_entries_view_dom(base.entries@, k);
            lemma_entries_view_dom(overlay.entries@, k);
        }
        lemma_table_merge(bm, om, entries_view(out@));
    }
    ConfigTable { entries: out }
}

/// A typed accessor was used on a key that is missing or of another type.
#[derive(Clone, Copy, Debug, PartialEq, Eq)]
pub enum AccessError {
    KeyNotFoundError,
    TypeMismatchError,
}

/// A merged configuration document: read-only once built.
pub struct ConfigDocument {
    pub root: ConfigTable,
}

impl View for ConfigDocument {
    type V = Map<Seq<char>, ValModel>;

    open spec fn view(&self) -> Map<Seq<char>, ValModel> {
        table_view(self.root)
    }
}

impl ConfigDocument {
    /// The string at a top-level key of the merged view.
    ///
    /// Fails with `KeyNotFoundError` when the key is absent and with
    /// `TypeMismatchError` when the key holds a value of another type.
    pub fn get_string(&self, key: &str) -> (r: Result<String, AccessError>)
        ensures
            match r {
                Ok(s) => self@.dom().contains(key@) && self@[key@] == ValModel::Str(s@),
                Err(AccessError::KeyNotFoundError) => !self@.dom().contains(key@),
                Err(AccessError::TypeMismatchError) => self@.dom().contains(key@)
                    && !(self@[key@] is Str),
            },
    {
        match find_entry(&self.root.entries, key) {
            Some(j) => match &self.root.entries[j].1 {
                ConfigValue::Str(s) => Ok(s.clone()),
                _ => Err(AccessError::TypeMismatchError),
            },
            None => Err(AccessError::KeyNotFoundError),
        }
    }

    /// The integer at a top-level key of the merged view.
    ///
    /// Fails with `KeyNotFoundError` when the key is absent and with
    /// `TypeMismatchError` when the key holds a value of another type.
    pub fn get_int(&self, key: &str) -> (r: Result<i64, AccessError>)
        ensures
            match r {
                Ok(i) => self@.dom().contains(key@) && self@[key@] == ValModel::Int(i as int),
                Err(AccessError::KeyNotFoundError) => !self@.dom().contains(key@),
                Err(AccessError::TypeMismatchError) => self@.dom().contains(key@)
                    && !(self@[key@] is Int),
            },
    {
        match find_entry(&self.root.entries, key) {
            Some(j) => match &self.root.entries[j].1 {
                ConfigValue::Int(i) => Ok(*i),
                _ => Err(AccessError::TypeMismatchError),
            },
            None => Err(AccessError::KeyNotFoundError),
        }
    }
}

/// Merges a base document with an overlay document, overlay-wins.
pub fn merge_documents(base: &ConfigDocument, overlay: &ConfigDocument) -> (r: ConfigDocument)
    ensures
        is_model_merge(ValModel::Table(base@), ValModel::Table(overlay@), ValModel::Table(r@)),
{
    ConfigDocument { root: merge_tables(&base.root, &overlay.root) }
}

} // verus!
