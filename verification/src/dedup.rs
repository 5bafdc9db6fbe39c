//! Which top-level declarations of a unit repeat an earlier one.

use crate::stdint::{expected_stdint_target, expected_target};
use crate::text::string_views;
use vstd::prelude::*;

verus! {

/// The kinds of declaration that are told apart when repeats are looked
/// for.
#[derive(Clone, Copy, Debug, PartialEq, Eq, Structural)]
pub enum ItemClass {
    Use,
    Type,
    Const,
    Static,
    Struct,
    Enum,
    Union,
    /// Any other declaration; never a repeat.
    Other,
}

/// A declaration as far as repeats are concerned: its kind, and the key by
/// which it is compared with others of its kind (the token rendering of an
/// import, the name of anything else).
#[derive(Debug, PartialEq, Eq)]
pub struct ItemKey {
    pub class: ItemClass,
    pub key: String,
}

/// The mathematical model of an [`ItemKey`].
pub struct ItemKeyView {
    pub class: ItemClass,
    pub key: Seq<char>,
}

impl View for ItemKey {
    type V = ItemKeyView;

    open spec fn view(&self) -> ItemKeyView {
        ItemKeyView { class: self.class, key: self.key@ }
    }
}

/// The models of a vector of keys, in order.
pub open spec fn key_views(items: Seq<ItemKey>) -> Seq<ItemKeyView> {
    Seq::new(items.len(), |i: int| items[i]@)
}

/// Whether a declaration before the one at `i` has its kind and its key.
pub open spec fn repeats_earlier(items: Seq<ItemKeyView>, i: int) -> bool {
    exists|j: int| 0 <= j < i && #[trigger] items[j].class == items[i].class && items[j].key
        == items[i].key
}

/// Whether the declaration is a type alias for a fixed-width name that an
/// import of the unit brings into scope already.
pub open spec fn shadows_import(item: ItemKeyView, imported: Seq<Seq<char>>) -> bool {
    item.class is Type && imported.contains(item.key) && expected_target(item.key) is Some
}

/// Whether the declaration at `i` stays.
pub open spec fn is_kept(items: Seq<ItemKeyView>, imported: Seq<Seq<char>>, i: int) -> bool {
    items[i].class is Other || (!shadows_import(items[i], imported) && !repeats_earlier(items, i))
}

/// Whether `name` is among `names`.
fn holds_name(names: &Vec<String>, name: &String) -> (r: bool)
    ensures
        r == string_views(names@).contains(name@),
{
    let mut i: usize = 0;
    while i < names.len()
        invariant
            i <= names.len(),
            forall|k: int| 0 <= k < i ==> string_views(names@)[k] != name@,
        decreases names.len() - i,
    {
        if names[i] == *name {
            assert(string_views(names@)[i as int] == name@);
            return true;
        }
        i += 1;
    }
    false
}

/// For each declaration of a unit, whether it stays when repeats are
/// removed: the first declaration of each kind and key stays, later ones
/// go; a type alias for a fixed-width name that is among the `imported`
/// names goes in any case; a declaration of another kind always stays.
pub fn dedup_keep(items: &Vec<ItemKey>, imported: &Vec<String>) -> (keep: Vec<bool>)
    ensures
        keep@.len() == items@.len(),
        forall|i: int|
            0 <= i < items@.len() ==> #[trigger] keep@[i] == is_kept(
                key_views(items@),
                string_views(imported@),
                i,
            ),
{
    let ghost models = key_views(items@);
    let ghost names = string_views(imported@);
    let mut keep: Vec<bool> = Vec::new();
    let mut i: usize = 0;
    while i < items.len()
        invariant
            i <= items.len(),
            models == key_views(items@),
            names == string_views(imported@),
            keep@.len() == i,
            forall|k: int| 0 <= k < i ==> #[trigger] keep@[k] == is_kept(models, names, k),
        decreases items.len() - i,
    {
        let item = &items[i];
        assert(models[i as int] == item@);
        let stays = if item.class == ItemClass::Other {
            true
        } else if item.class == ItemClass::Type && holds_name(imported, &item.key)
            && expected_stdint_target(item.key.as_str()).is_some() {
            false
        } else {
            let mut repeated = false;
            let mut j: usize = 0;
            while j < i && !repeated
                invariant
                    j <= i < items.len(),
                    models == key_views(items@),
                    item == &items@[i as int],
                    repeated ==> repeats_earlier(models, i as int),
                    !repeated ==> forall|k: int|
                        0 <= k < j ==> !(#[trigger] models[k].class == models[i as int].class
                            && models[k].key == models[i as int].key),
                decreases i - j + if repeated { 0int } else { 1int },
            {
                assert(models[j as int] == items@[j as int]@);
                if items[j].class == item.class && items[j].key == item.key {
                    repeated = true;
                } else {
                    j += 1;
                }
            }
            !repeated
        };
        keep.push(stays);
        i += 1;
    }
    keep
}

} // verus!
