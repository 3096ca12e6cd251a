//! A map kept in ascending key order.

use vstd::prelude::*;

verus! {

/// How one key stands to another.
#[derive(Clone, Copy, Debug, PartialEq, Eq, Structural)]
pub enum Rank {
    Below,
    Same,
    Above,
}

/// A key whose model has a total order.
pub trait Key: Sized {
    type Model;

    spec fn model(&self) -> Self::Model;

    spec fn before(left: Self::Model, right: Self::Model) -> bool;

    proof fn order_laws(a: Self::Model, b: Self::Model, c: Self::Model)
        ensures
            !Self::before(a, a),
            Self::before(a, b) && Self::before(b, c) ==> Self::before(a, c),
            a == b || Self::before(a, b) || Self::before(b, a),
    ;

    fn rank(&self, other: &Self) -> (rank: Rank)
        ensures
            match rank {
                Rank::Below => Self::before(self.model(), other.model()),
                Rank::Same => self.model() == other.model(),
                Rank::Above => Self::before(other.model(), self.model()),
            },
    ;

    fn copied(&self) -> (copy: Self)
        ensures
            copy.model() == self.model(),
    ;
}

/// A value that can be copied and compared through its view.
pub trait Record: View + Sized {
    fn duplicate(&self) -> (copy: Self)
        ensures
            copy@ == self@,
    ;

    fn same(&self, other: &Self) -> (same: bool)
        ensures
            same == (self@ == other@),
    ;
}

/// A value that can be copied through its view.
pub trait Replica: View + Sized {
    fn replica(&self) -> (copy: Self)
        ensures
            copy@ == self@,
    ;
}

impl<T: Record> Replica for T {
    fn replica(&self) -> (copy: T) {
        self.duplicate()
    }
}

/// The keys stand in strictly ascending order.
pub open spec fn ascending<K: Key>(keys: Seq<K>) -> bool {
    forall|i: int, j: int|
        0 <= i < j < keys.len() ==> K::before(
            (#[trigger] keys[i]).model(),
            (#[trigger] keys[j]).model(),
        )
}

/// A map from keys to values. Keys stand in ascending order, so that walking
/// the entries by index walks the map in key order.
#[derive(Debug, PartialEq, Eq)]
pub struct Table<K: Key, V> {
    keys: Vec<K>,
    values: Vec<V>,
}

impl<K: Key, V> Table<K, V> {
    pub closed spec fn keys(&self) -> Seq<K> {
        self.keys@
    }

    pub closed spec fn values(&self) -> Seq<V> {
        self.values@
    }

    #[verifier::type_invariant]
    closed spec fn in_order(self) -> bool {
        self.keys@.len() == self.values@.len() && ascending(self.keys@)
    }

    /// What holds of every table: one value for each key, keys ascending.
    pub open spec fn well_formed(&self) -> bool {
        self.keys().len() == self.values().len() && ascending(self.keys())
    }
}

/// The map of a table.
pub open spec fn map_of<K: Key, V: View>(keys: Seq<K>, values: Seq<V>) -> Map<K::Model, V::V> {
    Map::new(
        |model: K::Model| exists|index: int| key_at(keys, model, index),
        |model: K::Model| values[choose|index: int| key_at(keys, model, index)]@,
    )
}

/// `model` is the key at `index`.
pub open spec fn key_at<K: Key>(keys: Seq<K>, model: K::Model, index: int) -> bool {
    0 <= index < keys.len() && keys[index].model() == model
}

impl<K: Key, V: View> View for Table<K, V> {
    type V = Map<K::Model, V::V>;

    open spec fn view(&self) -> Map<K::Model, V::V> {
        map_of(self.keys(), self.values())
    }
}

/// A key stands at one place only.
proof fn key_is_unique<K: Key>(keys: Seq<K>, model: K::Model, i: int, j: int)
    requires
        ascending(keys),
        key_at(keys, model, i),
        key_at(keys, model, j),
    ensures
        i == j,
{
    K::order_laws(model, model, model);
    if i < j {
        assert(K::before(keys[i].model(), keys[j].model()));
    } else if j < i {
        assert(K::before(keys[j].model(), keys[i].model()));
    }
}

/// An entry of a table is an entry of its map.
pub proof fn entry_in_map<K: Key, V: View>(keys: Seq<K>, values: Seq<V>, index: int)
    requires
        ascending(keys),
        keys.len() == values.len(),
        0 <= index < keys.len(),
    ensures
        map_of(keys, values).contains_key(keys[index].model()),
        map_of(keys, values)[keys[index].model()] == values[index]@,
{
    let model = keys[index].model();
    assert(key_at(keys, model, index));
    let chosen = choose|i: int| key_at(keys, model, i);
    key_is_unique(keys, model, index, chosen);
}

/// A key of the map stands somewhere in the table.
pub proof fn map_entry_has_index<K: Key, V: View>(
    keys: Seq<K>,
    values: Seq<V>,
    model: K::Model,
) -> (index: int)
    requires
        ascending(keys),
        keys.len() == values.len(),
        map_of(keys, values).contains_key(model),
    ensures
        key_at(keys, model, index),
        map_of(keys, values)[model] == values[index]@,
{
    choose|i: int| key_at(keys, model, i)
}

proof fn absent_key<K: Key, V: View>(keys: Seq<K>, values: Seq<V>, model: K::Model, slot: int)
    requires
        0 <= slot <= keys.len(),
        forall|i: int| 0 <= i < slot ==> K::before((#[trigger] keys[i]).model(), model),
        forall|i: int| slot <= i < keys.len() ==> K::before(model, (#[trigger] keys[i]).model()),
    ensures
        !map_of(keys, values).contains_key(model),
{
    K::order_laws(model, model, model);
}

proof fn inserted_entry<K: Key, V: View>(
    keys: Seq<K>,
    values: Seq<V>,
    slot: int,
    key: K,
    value: V,
)
    requires
        ascending(keys),
        keys.len() == values.len(),
        0 <= slot <= keys.len(),
        forall|i: int| 0 <= i < slot ==> K::before((#[trigger] keys[i]).model(), key.model()),
        forall|i: int|
            slot <= i < keys.len() ==> K::before(key.model(), (#[trigger] keys[i]).model()),
    ensures
        ascending(keys.insert(slot, key)),
        map_of(keys.insert(slot, key), values.insert(slot, value)) == map_of(keys, values).insert(
            key.model(),
            value@,
        ),
{
    let new_keys = keys.insert(slot, key);
    let new_values = values.insert(slot, value);
    assert forall|i: int, j: int| 0 <= i < j < new_keys.len() implies K::before(
        (#[trigger] new_keys[i]).model(),
        (#[trigger] new_keys[j]).model(),
    ) by {
        let oi = if i < slot { i } else { i - 1 };
        let oj = if j < slot { j } else { j - 1 };
        if i == slot {
            assert(new_keys[j] == keys[oj]);
        } else if j == slot {
            assert(new_keys[i] == keys[oi]);
        } else {
            assert(new_keys[i] == keys[oi]);
            assert(new_keys[j] == keys[oj]);
        }
    }
    let before = map_of(keys, values);
    let after = map_of(new_keys, new_values);
    let expected = before.insert(key.model(), value@);
    assert forall|model: K::Model|
        #![trigger after.dom().contains(model)]
        #![trigger expected.dom().contains(model)]
        after.dom().contains(model) == expected.dom().contains(model) && (after.dom().contains(
            model,
        ) ==> after[model] == expected[model]) by {
        if model == key.model() {
            assert(key_at(new_keys, model, slot));
            entry_in_map(new_keys, new_values, slot);
        } else {
            if after.contains_key(model) {
                let i = map_entry_has_index(new_keys, new_values, model);
                let old_i = if i < slot { i } else { i - 1 };
                assert(new_keys[i] == keys[old_i]);
                assert(key_at(keys, model, old_i));
                entry_in_map(keys, values, old_i);
            }
            if before.contains_key(model) {
                let i = map_entry_has_index(keys, values, model);
                let new_i = if i < slot { i } else { i + 1 };
                assert(new_keys[new_i] == keys[i]);
                assert(key_at(new_keys, model, new_i));
            }
        }
    }
    assert(after.dom() =~= expected.dom());
    assert(after =~= expected);
}

proof fn updated_entry<K: Key, V: View>(keys: Seq<K>, values: Seq<V>, index: int, value: V)
    requires
        ascending(keys),
        keys.len() == values.len(),
        0 <= index < keys.len(),
    ensures
        map_of(keys, values.update(index, value)) == map_of(keys, values).insert(
            keys[index].model(),
            value@,
        ),
{
    let key = keys[index].model();
    let before = map_of(keys, values);
    let after = map_of(keys, values.update(index, value));
    assert(key_at(keys, key, index));
    assert forall|model: K::Model|
        after.contains_key(model) implies after[model] == before.insert(
        key,
        value@,
    )[model] by {
        let i = map_entry_has_index(keys, values.update(index, value), model);
        if i == index {
        } else {
            if model == key {
                key_is_unique(keys, model, i, index);
            }
            entry_in_map(keys, values, i);
        }
    }
    assert(after =~= before.insert(key, value@));
}

proof fn removed_entry<K: Key, V: View>(keys: Seq<K>, values: Seq<V>, index: int)
    requires
        ascending(keys),
        keys.len() == values.len(),
        0 <= index < keys.len(),
    ensures
        ascending(keys.remove(index)),
        map_of(keys.remove(index), values.remove(index)) == map_of(keys, values).remove(
            keys[index].model(),
        ),
{
    let new_keys = keys.remove(index);
    let new_values = values.remove(index);
    let gone = keys[index].model();
    assert forall|i: int, j: int| 0 <= i < j < new_keys.len() implies K::before(
        (#[trigger] new_keys[i]).model(),
        (#[trigger] new_keys[j]).model(),
    ) by {
        let oi = if i < index { i } else { i + 1 };
        let oj = if j < index { j } else { j + 1 };
        assert(new_keys[i] == keys[oi]);
        assert(new_keys[j] == keys[oj]);
    }
    let before = map_of(keys, values);
    let after = map_of(new_keys, new_values);
    let expected = before.remove(gone);
    assert forall|model: K::Model|
        #![trigger after.dom().contains(model)]
        #![trigger expected.dom().contains(model)]
        after.dom().contains(model) == expected.dom().contains(model) && (after.dom().contains(
            model,
        ) ==> after[model] == expected[model]) by {
        if after.contains_key(model) {
            let i = map_entry_has_index(new_keys, new_values, model);
            let old_i = if i < index { i } else { i + 1 };
            assert(new_keys[i] == keys[old_i]);
            assert(key_at(keys, model, old_i));
            entry_in_map(keys, values, old_i);
            if model == gone {
                key_is_unique(keys, model, old_i, index);
            }
        }
        if before.contains_key(model) && model != gone {
            let i = map_entry_has_index(keys, values, model);
            let new_i = if i < index { i } else { i - 1 };
            assert(new_keys[new_i] == keys[i]);
            assert(key_at(new_keys, model, new_i));
        }
    }
    assert(after.dom() =~= expected.dom());
    assert(after =~= expected);
}

/// A table has one key for each entry of its map.
pub proof fn map_size<K: Key, V: View>(keys: Seq<K>, values: Seq<V>)
    requires
        ascending(keys),
        keys.len() == values.len(),
    ensures
        map_of(keys, values).dom().finite(),
        map_of(keys, values).dom().len() == keys.len(),
    decreases keys.len(),
{
    let map = map_of(keys, values);
    if keys.len() == 0 {
        assert(map.dom() =~= Set::<K::Model>::empty());
    } else {
        let last = keys.len() - 1;
        let rest_keys = keys.remove(last);
        let rest_values = values.remove(last);
        removed_entry(keys, values, last);
        map_size(rest_keys, rest_values);
        let rest = map_of(rest_keys, rest_values);
        entry_in_map(keys, values, last);
        assert(map.dom() =~= rest.dom().insert(keys[last].model()));
    }
}

/// Tables with the same map list the same keys and the same values in the
/// same order.
pub proof fn map_fixes_entries<K: Key, V: View>(
    keys1: Seq<K>,
    values1: Seq<V>,
    keys2: Seq<K>,
    values2: Seq<V>,
)
    requires
        ascending(keys1),
        keys1.len() == values1.len(),
        ascending(keys2),
        keys2.len() == values2.len(),
        map_of(keys1, values1) == map_of(keys2, values2),
    ensures
        keys1.len() == keys2.len(),
        forall|i: int|
            0 <= i < keys1.len() ==> (#[trigger] keys1[i]).model() == keys2[i].model()
                && values1[i]@ == values2[i]@,
    decreases keys1.len(),
{
    map_size(keys1, values1);
    map_size(keys2, values2);
    if keys1.len() > 0 {
        let last = keys1.len() - 1;
        entry_in_map(keys1, values1, last);
        entry_in_map(keys2, values2, last);
        let i = map_entry_has_index(keys2, values2, keys1[last].model());
        let j = map_entry_has_index(keys1, values1, keys2[last].model());
        if i < last {
            assert(K::before(keys2[i].model(), keys2[last].model()));
            if j < last {
                assert(K::before(keys1[j].model(), keys1[last].model()));
                K::order_laws(keys1[last].model(), keys2[last].model(), keys1[last].model());
            } else {
                K::order_laws(keys1[last].model(), keys1[last].model(), keys1[last].model());
            }
        }
        assert(i == last);
        removed_entry(keys1, values1, last);
        removed_entry(keys2, values2, last);
        let k1 = keys1.remove(last);
        let k2 = keys2.remove(last);
        let v1 = values1.remove(last);
        let v2 = values2.remove(last);
        map_fixes_entries(k1, v1, k2, v2);
        assert forall|n: int| 0 <= n < keys1.len() implies (#[trigger] keys1[n]).model()
            == keys2[n].model() && values1[n]@ == values2[n]@ by {
            if n < last {
                assert(k1[n] == keys1[n]);
            }
        }
    }
}

/// `models` names each key of `map` once, in ascending order.
pub open spec fn listed<K: Key, V>(map: Map<K::Model, V>, models: Seq<K::Model>) -> bool {
    &&& forall|i: int, j: int|
        0 <= i < j < models.len() ==> K::before(#[trigger] models[i], #[trigger] models[j])
    &&& forall|i: int| 0 <= i < models.len() ==> map.contains_key(#[trigger] models[i])
    &&& forall|model: K::Model| #[trigger] map.contains_key(model) ==> models.contains(model)
}

/// The keys of a map in ascending order.
pub open spec fn listing<K: Key, V>(map: Map<K::Model, V>) -> Seq<K::Model> {
    choose|models: Seq<K::Model>| listed::<K, V>(map, models)
}

proof fn listing_is_unique_up_to<K: Key, V>(
    map: Map<K::Model, V>,
    a: Seq<K::Model>,
    b: Seq<K::Model>,
    count: int,
)
    requires
        listed::<K, V>(map, a),
        listed::<K, V>(map, b),
        0 <= count <= a.len(),
    ensures
        count <= b.len(),
        a.take(count) =~= b.take(count),
    decreases count,
{
    if count > 0 {
        let last = count - 1;
        listing_is_unique_up_to::<K, V>(map, a, b, last);
        assert(map.contains_key(a[last]));
        let j = choose|j: int| 0 <= j < b.len() && b[j] == a[last];
        assert(b.contains(a[last]));
        if j < last {
            assert(a.take(last)[j] == b.take(last)[j]);
            assert(K::before(a[j], a[last]));
            K::order_laws(a[last], a[last], a[last]);
        }
        if j > last {
            assert(map.contains_key(b[last]));
            assert(a.contains(b[last]));
            let k = choose|k: int| 0 <= k < a.len() && a[k] == b[last];
            assert(K::before(b[last], b[j]));
            K::order_laws(a[last], b[last], a[last]);
            if k < last {
                assert(a.take(last)[k] == b.take(last)[k]);
                assert(K::before(b[k], b[last]));
                K::order_laws(b[last], b[last], b[last]);
            } else if k > last {
                assert(K::before(a[last], a[k]));
                K::order_laws(a[last], a[last], a[last]);
            } else {
                K::order_laws(a[last], a[last], a[last]);
            }
        }
        assert(a.take(count) =~= a.take(last).push(a[last]));
        assert(b.take(count) =~= b.take(last).push(b[last]));
    }
}

/// The ascending listing of a map's keys is determined.
pub proof fn listing_is_unique<K: Key, V>(
    map: Map<K::Model, V>,
    a: Seq<K::Model>,
    b: Seq<K::Model>,
)
    requires
        listed::<K, V>(map, a),
        listed::<K, V>(map, b),
    ensures
        a == b,
{
    listing_is_unique_up_to::<K, V>(map, a, b, a.len() as int);
    listing_is_unique_up_to::<K, V>(map, b, a, b.len() as int);
    assert(a.take(a.len() as int) =~= a);
    assert(b.take(b.len() as int) =~= b);
}

/// The place of a model in an ascending list that does not hold it.
proof fn place_for<K: Key>(models: Seq<K::Model>, model: K::Model) -> (place: int)
    requires
        !models.contains(model),
        forall|i: int, j: int|
            0 <= i < j < models.len() ==> K::before(#[trigger] models[i], #[trigger] models[j]),
    ensures
        0 <= place <= models.len(),
        forall|i: int| 0 <= i < place ==> K::before(#[trigger] models[i], model),
        forall|i: int| place <= i < models.len() ==> K::before(model, #[trigger] models[i]),
    decreases models.len(),
{
    if models.len() == 0 {
        0
    } else {
        let rest = models.drop_last();
        let last = models.len() - 1;
        assert forall|i: int, j: int| 0 <= i < j < rest.len() implies K::before(
            #[trigger] rest[i],
            #[trigger] rest[j],
        ) by {
            assert(rest[i] == models[i] && rest[j] == models[j]);
        }
        assert forall|i: int| 0 <= i < rest.len() implies rest[i] != model by {
            assert(models[i] == rest[i]);
        }
        K::order_laws(models[last], model, model);
        if K::before(models[last], model) {
            assert forall|i: int| 0 <= i < models.len() implies K::before(
                #[trigger] models[i],
                model,
            ) by {
                if i < last {
                    assert(K::before(models[i], models[last]));
                    K::order_laws(models[i], models[last], model);
                }
            }
            models.len() as int
        } else {
            let place = place_for::<K>(rest, model);
            assert forall|i: int| 0 <= i < place implies K::before(#[trigger] models[i], model) by {
                assert(rest[i] == models[i]);
            }
            assert forall|i: int| place <= i < models.len() implies K::before(
                model,
                #[trigger] models[i],
            ) by {
                if i < last {
                    assert(rest[i] == models[i]);
                }
            }
            place
        }
    }
}

proof fn ascending_models<K: Key>(set: Set<K::Model>) -> (models: Seq<K::Model>)
    requires
        set.finite(),
    ensures
        forall|i: int, j: int|
            0 <= i < j < models.len() ==> K::before(#[trigger] models[i], #[trigger] models[j]),
        forall|model: K::Model| #[trigger] models.contains(model) <==> set.contains(model),
    decreases set.len(),
{
    if set.len() == 0 {
        let none = Seq::<K::Model>::empty();
        assert forall|model: K::Model| #[trigger] none.contains(model) <==> set.contains(model) by {
            if set.contains(model) {
                assert(set.remove(model).len() < set.len());
            }
        }
        none
    } else {
        let one = set.choose();
        let rest = ascending_models::<K>(set.remove(one));
        assert(!rest.contains(one));
        let place = place_for::<K>(rest, one);
        let models = rest.insert(place, one);
        assert forall|i: int, j: int| 0 <= i < j < models.len() implies K::before(
            #[trigger] models[i],
            #[trigger] models[j],
        ) by {
            let oi = if i < place { i } else { i - 1 };
            let oj = if j < place { j } else { j - 1 };
            if i == place {
                assert(models[j] == rest[oj]);
            } else if j == place {
                assert(models[i] == rest[oi]);
            } else {
                assert(models[i] == rest[oi] && models[j] == rest[oj]);
            }
        }
        assert forall|model: K::Model| #[trigger] models.contains(model) <==> set.contains(
            model,
        ) by {
            if models.contains(model) {
                let i = choose|i: int| 0 <= i < models.len() && models[i] == model;
                if i < place {
                    assert(rest[i] == model);
                    assert(rest.contains(model));
                } else if i > place {
                    assert(rest[i - 1] == model);
                    assert(rest.contains(model));
                }
            }
            if set.contains(model) {
                if model == one {
                    assert(models[place] == one);
                } else {
                    assert(rest.contains(model));
                    let i = choose|i: int| 0 <= i < rest.len() && rest[i] == model;
                    let k = if i < place { i } else { i + 1 };
                    assert(models[k] == model);
                }
            }
        }
        models
    }
}

/// The keys of a finite map can be listed.
pub proof fn finite_maps_have_listings<K: Key, V>(map: Map<K::Model, V>)
    requires
        map.dom().finite(),
    ensures
        listed::<K, V>(map, listing::<K, V>(map)),
{
    let models = ascending_models::<K>(map.dom());
    assert forall|i: int| 0 <= i < models.len() implies map.contains_key(#[trigger] models[i]) by {
        assert(models.contains(models[i]));
    }
    assert(listed::<K, V>(map, models));
}

/// Walking a table by index walks the listing of its map.
pub proof fn table_is_listed<K: Key, V: View>(keys: Seq<K>, values: Seq<V>)
    requires
        ascending(keys),
        keys.len() == values.len(),
    ensures
        listed::<K, V::V>(map_of(keys, values), listing::<K, V::V>(map_of(keys, values))),
        listing::<K, V::V>(map_of(keys, values)).len() == keys.len(),
        forall|i: int|
            0 <= i < keys.len() ==> (#[trigger] keys[i]).model() == listing::<K, V::V>(
                map_of(keys, values),
            )[i],
{
    let map = map_of(keys, values);
    let models = Seq::new(keys.len(), |i: int| keys[i].model());
    assert forall|i: int, j: int| 0 <= i < j < models.len() implies K::before(
        #[trigger] models[i],
        #[trigger] models[j],
    ) by {
        assert(K::before(keys[i].model(), keys[j].model()));
    }
    assert forall|i: int| 0 <= i < models.len() implies map.contains_key(#[trigger] models[i]) by {
        entry_in_map(keys, values, i);
    }
    assert forall|model: K::Model| #[trigger] map.contains_key(model) implies models.contains(
        model,
    ) by {
        let i = map_entry_has_index(keys, values, model);
        assert(models[i] == model);
    }
    assert(listed::<K, V::V>(map, models));
    listing_is_unique::<K, V::V>(map, models, listing::<K, V::V>(map));
}

impl<K: Key, V: View> Table<K, V> {
    pub fn new() -> (table: Table<K, V>)
        ensures
            table@ == Map::<K::Model, V::V>::empty(),
            table.keys().len() == 0,
            table.values().len() == 0,
    {
        let table = Table { keys: Vec::new(), values: Vec::new() };
        assert(table@ =~= Map::<K::Model, V::V>::empty());
        table
    }

    pub fn len(&self) -> (length: usize)
        ensures
            length == self@.len(),
            length == self.keys().len(),
            self@.dom().finite(),
            self.well_formed(),
    {
        proof {
            use_type_invariant(self);
            map_size(self.keys@, self.values@);
        }
        self.keys.len()
    }

    pub fn is_empty(&self) -> (empty: bool)
        ensures
            empty == (self@.len() == 0),
            empty == (self@ == Map::<K::Model, V::V>::empty()),
    {
        proof {
            use_type_invariant(self);
            map_size(self.keys@, self.values@);
            if self.keys@.len() == 0 {
                assert(self@ =~= Map::<K::Model, V::V>::empty());
            }
        }
        self.keys.len() == 0
    }

    /// The key at `index` in ascending order.
    pub fn key_at(&self, index: usize) -> (key: &K)
        requires
            index < self.keys().len(),
        ensures
            *key == self.keys()[index as int],
            self@.contains_key(key.model()),
            self.well_formed(),
    {
        proof {
            use_type_invariant(self);
            entry_in_map(self.keys@, self.values@, index as int);
        }
        &self.keys[index]
    }

    /// The value at `index` in ascending key order.
    pub fn value_at(&self, index: usize) -> (value: &V)
        requires
            index < self.keys().len(),
        ensures
            *value == self.values()[index as int],
            self@.contains_key(self.keys()[index as int].model()),
            value@ == self@[self.keys()[index as int].model()],
            self.well_formed(),
    {
        proof {
            use_type_invariant(self);
            entry_in_map(self.keys@, self.values@, index as int);
        }
        &self.values[index]
    }

    /// Where `key` stands, or where it would be put.
    fn seek(&self, key: &K) -> (place: (usize, bool))
        ensures
            self.well_formed(),
            place.0 <= self.keys().len(),
            place.1 ==> place.0 < self.keys().len() && self.keys()[place.0 as int].model()
                == key.model(),
            !place.1 ==> {
                &&& forall|i: int|
                    0 <= i < place.0 ==> K::before((#[trigger] self.keys()[i]).model(), key.model())
                &&& forall|i: int|
                    place.0 <= i < self.keys().len() ==> K::before(
                        key.model(),
                        (#[trigger] self.keys()[i]).model(),
                    )
            },
    {
        proof {
            use_type_invariant(self);
        }
        let mut low: usize = 0;
        let mut high: usize = self.keys.len();
        while low < high
            invariant
                self.well_formed(),
                low <= high <= self.keys().len(),
                forall|i: int|
                    0 <= i < low ==> K::before((#[trigger] self.keys()[i]).model(), key.model()),
                forall|i: int|
                    high <= i < self.keys().len() ==> K::before(
                        key.model(),
                        (#[trigger] self.keys()[i]).model(),
                    ),
            decreases high - low,
        {
            let middle: usize = low + (high - low) / 2;
            match self.keys[middle].rank(key) {
                Rank::Same => {
                    return (middle, true);
                },
                Rank::Below => {
                    proof {
                        assert forall|i: int| 0 <= i < middle + 1 implies K::before(
                            (#[trigger] self.keys()[i]).model(),
                            key.model(),
                        ) by {
                            if i < middle {
                                K::order_laws(
                                    self.keys()[i].model(),
                                    self.keys()[middle as int].model(),
                                    key.model(),
                                );
                            }
                        }
                    }
                    low = middle + 1;
                },
                Rank::Above => {
                    proof {
                        assert forall|i: int| middle <= i < self.keys().len() implies K::before(
                            key.model(),
                            (#[trigger] self.keys()[i]).model(),
                        ) by {
                            if i > middle {
                                K::order_laws(
                                    key.model(),
                                    self.keys()[middle as int].model(),
                                    self.keys()[i].model(),
                                );
                            }
                        }
                    }
                    high = middle;
                },
            }
        }
        (low, false)
    }

    pub fn contains_key(&self, key: &K) -> (present: bool)
        ensures
            present == self@.contains_key(key.model()),
    {
        let (index, found) = self.seek(key);
        proof {
            if found {
                entry_in_map(self.keys(), self.values(), index as int);
            } else {
                absent_key(self.keys(), self.values(), key.model(), index as int);
            }
        }
        found
    }

    pub fn get(&self, key: &K) -> (value: Option<&V>)
        ensures
            match value {
                Some(value) => self@.contains_key(key.model()) && value@ == self@[key.model()],
                None => !self@.contains_key(key.model()),
            },
    {
        let (index, found) = self.seek(key);
        proof {
            if found {
                entry_in_map(self.keys(), self.values(), index as int);
            } else {
                absent_key(self.keys(), self.values(), key.model(), index as int);
            }
        }
        if found {
            Some(&self.values[index])
        } else {
            None
        }
    }

    /// Changes the value of a key in place.
    pub fn get_mut(&mut self, key: &K) -> (value: Option<&mut V>)
        ensures
            match value {
                Some(value) => {
                    &&& old(self)@.contains_key(key.model())
                    &&& value@ == old(self)@[key.model()]
                    &&& final(self)@ == old(self)@.insert(key.model(), final(value)@)
                },
                None => !old(self)@.contains_key(key.model()) && final(self)@ == old(self)@,
            },
    {
        let (index, found) = self.seek(key);
        let ghost keys = self.keys@;
        let ghost values = self.values@;
        proof {
            use_type_invariant(&*self);
            if found {
                entry_in_map(keys, values, index as int);
            } else {
                absent_key(keys, values, key.model(), index as int);
            }
            assert forall|value: V| found implies #[trigger] map_of(
                keys,
                values.update(index as int, value),
            ) == map_of(keys, values).insert(key.model(), value@) by {
                updated_entry(keys, values, index as int, value);
            }
        }
        if found {
            Some(&mut self.values[index])
        } else {
            None
        }
    }

    /// Puts a value under a key, in place of the one that was there.
    pub fn insert(&mut self, key: K, value: V) -> (replaced: bool)
        ensures
            final(self)@ == old(self)@.insert(key.model(), value@),
            replaced == old(self)@.contains_key(key.model()),
    {
        let (index, found) = self.seek(&key);
        let mut keys: Vec<K> = Vec::new();
        let mut values: Vec<V> = Vec::new();
        proof {
            use_type_invariant(&*self);
            if found {
                entry_in_map(self.keys@, self.values@, index as int);
                updated_entry(self.keys@, self.values@, index as int, value);
            } else {
                absent_key(self.keys@, self.values@, key.model(), index as int);
                inserted_entry(self.keys@, self.values@, index as int, key, value);
            }
        }
        if found {
            self.values[index] = value;
        } else {
            let mut taken = Table { keys, values };
            std::mem::swap(self, &mut taken);
            let Table { keys: mut keys, values: mut values } = taken;
            keys.insert(index, key);
            values.insert(index, value);
            *self = Table { keys, values };
        }
        found
    }

    pub fn remove(&mut self, key: &K) -> (removed: bool)
        ensures
            final(self)@ == old(self)@.remove(key.model()),
            removed == old(self)@.contains_key(key.model()),
    {
        let (index, found) = self.seek(key);
        proof {
            use_type_invariant(&*self);
            if found {
                entry_in_map(self.keys@, self.values@, index as int);
                removed_entry(self.keys@, self.values@, index as int);
            } else {
                absent_key(self.keys@, self.values@, key.model(), index as int);
                assert(self@ =~= self@.remove(key.model()));
            }
        }
        if found {
            let mut taken = Table { keys: Vec::new(), values: Vec::new() };
            std::mem::swap(self, &mut taken);
            let Table { keys: mut keys, values: mut values } = taken;
            keys.remove(index);
            values.remove(index);
            *self = Table { keys, values };
        }
        found
    }
}

/// The map of the entries below `count`, copied.
proof fn copied_entries<K: Key, V: View>(
    keys1: Seq<K>,
    values1: Seq<V>,
    keys2: Seq<K>,
    values2: Seq<V>,
)
    requires
        ascending(keys1),
        keys1.len() == values1.len(),
        keys2.len() == keys1.len(),
        values2.len() == keys1.len(),
        forall|i: int| 0 <= i < keys1.len() ==> (#[trigger] keys1[i]).model() == keys2[i].model(),
        forall|i: int| 0 <= i < keys1.len() ==> (#[trigger] values1[i])@ == values2[i]@,
    ensures
        ascending(keys2),
        map_of(keys1, values1) == map_of(keys2, values2),
{
    assert forall|i: int, j: int| 0 <= i < j < keys2.len() implies K::before(
        (#[trigger] keys2[i]).model(),
        (#[trigger] keys2[j]).model(),
    ) by {
        assert(keys1[i].model() == keys2[i].model());
        assert(keys1[j].model() == keys2[j].model());
    }
    let left = map_of(keys1, values1);
    let right = map_of(keys2, values2);
    assert forall|model: K::Model|
        #![trigger left.dom().contains(model)]
        #![trigger right.dom().contains(model)]
        left.dom().contains(model) == right.dom().contains(model) && (left.dom().contains(model)
            ==> left[model] == right[model]) by {
        if left.dom().contains(model) {
            let i = map_entry_has_index(keys1, values1, model);
            entry_in_map(keys2, values2, i);
        }
        if right.dom().contains(model) {
            let i = map_entry_has_index(keys2, values2, model);
            entry_in_map(keys1, values1, i);
        }
    }
    assert(left.dom() =~= right.dom());
    assert(left =~= right);
}

impl<K: Key, V: Replica> Clone for Table<K, V> {
    fn clone(&self) -> (copy: Table<K, V>)
        ensures
            copy@ == self@,
    {
        proof {
            use_type_invariant(self);
        }
        let mut keys: Vec<K> = Vec::new();
        let mut values: Vec<V> = Vec::new();
        let mut index: usize = 0;
        while index < self.keys.len()
            invariant
                self.keys@.len() == self.values@.len(),
                index <= self.keys@.len(),
                keys@.len() == index,
                values@.len() == index,
                forall|i: int| 0 <= i < index ==> (#[trigger] keys@[i]).model() == self.keys@[i].model(),
                forall|i: int| 0 <= i < index ==> (#[trigger] values@[i])@ == self.values@[i]@,
            decreases self.keys.len() - index,
        {
            keys.push(self.keys[index].copied());
            values.push(self.values[index].replica());
            index += 1;
        }
        proof {
            assert forall|i: int| 0 <= i < self.keys@.len() implies (
            #[trigger] self.keys@[i]).model() == keys@[i].model() by {
                assert(keys@[i].model() == self.keys@[i].model());
            }
            assert forall|i: int| 0 <= i < self.keys@.len() implies (#[trigger] self.values@[i])@
                == values@[i]@ by {
                assert(values@[i]@ == self.values@[i]@);
            }
            copied_entries(self.keys@, self.values@, keys@, values@);
        }
        Table { keys, values }
    }
}

impl<K: Key, V: Record> Record for Table<K, V> {
    fn duplicate(&self) -> (copy: Table<K, V>) {
        self.clone()
    }

    fn same(&self, other: &Table<K, V>) -> (same: bool) {
        proof {
            use_type_invariant(self);
            use_type_invariant(other);
            map_size(self.keys@, self.values@);
            map_size(other.keys@, other.values@);
        }
        if self.keys.len() != other.keys.len() {
            return false;
        }
        let mut index: usize = 0;
        while index < self.keys.len()
            invariant
                self.well_formed(),
                other.well_formed(),
                self.keys@.len() == other.keys@.len(),
                index <= self.keys@.len(),
                forall|i: int|
                    0 <= i < index ==> (#[trigger] self.keys@[i]).model() == other.keys@[i].model(),
                forall|i: int| 0 <= i < index ==> (#[trigger] self.values@[i])@ == other.values@[i]@,
            decreases self.keys.len() - index,
        {
            let equal = match self.keys[index].rank(&other.keys[index]) {
                Rank::Same => self.values[index].same(&other.values[index]),
                _ => false,
            };
            if !equal {
                proof {
                    let k = self.keys@[index as int].model();
                    K::order_laws(k, k, k);
                    if self@ == other@ {
                        map_fixes_entries(self.keys@, self.values@, other.keys@, other.values@);
                        assert(self.keys@[index as int].model() == other.keys@[index as int].model());
                    }
                }
                return false;
            }
            index += 1;
        }
        proof {
            copied_entries(self.keys@, self.values@, other.keys@, other.values@);
        }
        true
    }
}

} // verus!
