//! Networks in JSON documents.

use crate::ordering::reversed;
use crate::policy::cidr_order::{ascending_cidrs, sort_distinct};
use crate::policy::cidr_text::{parse_ip_cidr_non_strict, parse_non_strict, CidrModel};
use crate::policy::network_types::CanonicalCidr;
use crate::text::{same_text, views};
use vstd::prelude::*;

verus! {

/// What a JSON value holds.
pub enum JsonModel {
    /// A string.
    Text(Seq<char>),
    /// An array.
    Array(Seq<JsonModel>),
    /// An object: its keys and values.
    Object(Seq<(Seq<char>, JsonModel)>),
    /// Null, a boolean or a number.
    Scalar,
}

/// Declares `serde_json::Value`.
#[verifier::external_type_specification]
#[verifier::external_body]
pub struct ExValue(serde_json::Value);

/// What a `serde_json::Value` holds.
pub uninterp spec fn json_model(value: serde_json::Value) -> JsonModel;

/// The document that `serde_json::from_slice` reads from bytes; `None` where it rejects them.
pub uninterp spec fn json_parse(bytes: Seq<u8>) -> Option<JsonModel>;

/// Reads a document with `serde_json::from_slice`. The document is a function of the bytes alone;
/// which bytes are a document, and of what, is not stated.
#[verifier::external_body]
fn parse_value(bytes: &[u8]) -> (value: Option<serde_json::Value>)
    ensures
        json_parse(bytes@) == (match value {
            Some(v) => Some(json_model(v)),
            None => None,
        }),
{
    serde_json::from_slice(bytes).ok()
}

/// One level of a JSON value.
enum JsonShape {
    /// A string.
    Text(String),
    /// An array.
    Array(Vec<serde_json::Value>),
    /// An object: its keys and values.
    Object(Vec<(String, serde_json::Value)>),
    /// Null, a boolean or a number.
    Scalar,
}

/// What one level of a value holds.
spec fn shape_model(shape: JsonShape) -> JsonModel {
    match shape {
        JsonShape::Text(text) => JsonModel::Text(text@),
        JsonShape::Array(items) => JsonModel::Array(value_models(items@)),
        JsonShape::Object(entries) => JsonModel::Object(value_entries(entries@)),
        JsonShape::Scalar => JsonModel::Scalar,
    }
}

/// What values hold, in order.
spec fn value_models(items: Seq<serde_json::Value>) -> Seq<JsonModel> {
    Seq::new(items.len(), |i: int| json_model(items[i]))
}

/// Keys, and what their values hold, in order.
spec fn value_entries(entries: Seq<(String, serde_json::Value)>) -> Seq<(Seq<char>, JsonModel)> {
    Seq::new(entries.len(), |i: int| (entries[i].0@, json_model(entries[i].1)))
}

/// Tells the variants of `serde_json::Value` apart and hands their contents out: a string, the
/// items of an array, or the keys and values of an object in the order in which its map is walked.
#[verifier::external_body]
fn value_shape(value: serde_json::Value) -> (shape: JsonShape)
    ensures
        shape_model(shape) == json_model(value),
{
    match value {
        serde_json::Value::String(text) => JsonShape::Text(text),
        serde_json::Value::Array(items) => JsonShape::Array(items),
        serde_json::Value::Object(entries) => JsonShape::Object(entries.into_iter().collect()),
        _ => JsonShape::Scalar,
    }
}

// Trees -----------------------------------------------------------------------------------------

/// A JSON document.
#[derive(Debug, PartialEq, Eq)]
pub enum JsonTree {
    /// A string.
    Text(String),
    /// An array.
    Array(Vec<JsonTree>),
    /// An object: its keys and values.
    Object(Vec<(String, JsonTree)>),
    /// Null, a boolean or a number.
    Scalar,
}

impl JsonTree {
    /// What the document holds.
    pub open spec fn model(self) -> JsonModel
        decreases self,
    {
        match self {
            JsonTree::Text(text) => JsonModel::Text(text@),
            JsonTree::Array(items) => JsonModel::Array(tree_models(items@)),
            JsonTree::Object(entries) => JsonModel::Object(entry_models(entries@)),
            JsonTree::Scalar => JsonModel::Scalar,
        }
    }
}

/// What documents hold, in order.
pub open spec fn tree_models(items: Seq<JsonTree>) -> Seq<JsonModel>
    decreases items,
{
    if items.len() == 0 {
        Seq::empty()
    } else {
        tree_models(items.drop_last()).push(items.last().model())
    }
}

/// Keys, and what their values hold, in order.
pub open spec fn entry_models(entries: Seq<(String, JsonTree)>) -> Seq<(Seq<char>, JsonModel)>
    decreases entries,
{
    if entries.len() == 0 {
        Seq::empty()
    } else {
        entry_models(entries.drop_last()).push((entries.last().0@, entries.last().1.model()))
    }
}

proof fn lemma_tree_models(items: Seq<JsonTree>)
    ensures
        tree_models(items).len() == items.len(),
        forall|i: int|
            0 <= i < items.len() ==> #[trigger] tree_models(items)[i] == items[i].model(),
    decreases items.len(),
{
    if items.len() > 0 {
        lemma_tree_models(items.drop_last());
        assert forall|i: int| 0 <= i < items.len() implies #[trigger] tree_models(items)[i]
            == items[i].model() by {
            if i < items.len() - 1 {
                assert(tree_models(items)[i] == tree_models(items.drop_last())[i]);
            }
        }
    }
}

proof fn lemma_entry_models(entries: Seq<(String, JsonTree)>)
    ensures
        entry_models(entries).len() == entries.len(),
        forall|i: int|
            0 <= i < entries.len() ==> #[trigger] entry_models(entries)[i] == (
                entries[i].0@,
                entries[i].1.model(),
            ),
    decreases entries.len(),
{
    if entries.len() > 0 {
        lemma_entry_models(entries.drop_last());
        assert forall|i: int| 0 <= i < entries.len() implies #[trigger] entry_models(entries)[i] == (
            entries[i].0@,
            entries[i].1.model(),
        ) by {
            if i < entries.len() - 1 {
                assert(entry_models(entries)[i] == entry_models(entries.drop_last())[i]);
            }
        }
    }
}

/// Takes a value apart into a tree.
fn tree_of(value: serde_json::Value) -> (tree: JsonTree)
    ensures
        tree.model() == json_model(value),
    decreases json_model(value),
{
    let ghost model = json_model(value);
    match value_shape(value) {
        JsonShape::Text(text) => JsonTree::Text(text),
        JsonShape::Scalar => JsonTree::Scalar,
        JsonShape::Array(items) => {
            let ghost children = value_models(items@);
            let mut rest: Vec<serde_json::Value> = reversed(items);
            let mut taken: Vec<JsonTree> = Vec::new();
            assert(tree_models(taken@) =~= children.take(0));
            while rest.len() > 0
                invariant
                    model == JsonModel::Array(children),
                    model == json_model(value),
                    taken@.len() + rest@.len() == children.len(),
                    tree_models(taken@) == children.take(taken@.len() as int),
                    forall|k: int|
                        0 <= k < rest@.len() ==> json_model(#[trigger] rest@[k])
                            == children[children.len() - 1 - k],
                decreases rest@.len(),
            {
                let ghost all = rest@;
                let ghost before = taken@;
                let ghost n = before.len() as int;
                let child: serde_json::Value = rest.pop().unwrap();
                assert(child == all.last());
                assert(json_model(child) == children[n]);
                assert(decreases_to!(model => model->Array_0));
                assert(decreases_to!(children => children[n]));
                taken.push(tree_of(child));
                proof {
                    assert(taken@.drop_last() =~= before);
                    assert(tree_models(taken@) =~= children.take(n + 1));
                }
            }
            assert(children.take(taken@.len() as int) =~= children);
            JsonTree::Array(taken)
        },
        JsonShape::Object(entries) => {
            let ghost children = value_entries(entries@);
            let mut rest: Vec<(String, serde_json::Value)> = reversed(entries);
            let mut taken: Vec<(String, JsonTree)> = Vec::new();
            assert(entry_models(taken@) =~= children.take(0));
            while rest.len() > 0
                invariant
                    model == JsonModel::Object(children),
                    model == json_model(value),
                    taken@.len() + rest@.len() == children.len(),
                    entry_models(taken@) == children.take(taken@.len() as int),
                    forall|k: int|
                        0 <= k < rest@.len() ==> ((#[trigger] rest@[k]).0@, json_model(rest@[k].1))
                            == children[children.len() - 1 - k],
                decreases rest@.len(),
            {
                let ghost all = rest@;
                let ghost before = taken@;
                let ghost n = before.len() as int;
                let (key, child): (String, serde_json::Value) = rest.pop().unwrap();
                assert((key, child) == all.last());
                assert((key@, json_model(child)) == children[n]);
                assert(decreases_to!(model => model->Object_0));
                assert(decreases_to!(children => children[n]));
                assert(decreases_to!(children[n] => children[n].1));
                taken.push((key, tree_of(child)));
                proof {
                    assert(taken@.drop_last() =~= before);
                    assert(entry_models(taken@) =~= children.take(n + 1));
                }
            }
            assert(children.take(taken@.len() as int) =~= children);
            JsonTree::Object(taken)
        },
    }
}

/// A string of the document starts with the network.
pub open spec fn holds_network(model: JsonModel, network: CidrModel) -> bool
    decreases model,
{
    match model {
        JsonModel::Text(text) => parse_non_strict(text) == Some(network),
        JsonModel::Array(items) => exists|i: int|
            0 <= i < items.len() && holds_network(#[trigger] items[i], network),
        JsonModel::Object(entries) => exists|i: int|
            0 <= i < entries.len() && holds_network((#[trigger] entries[i]).1, network),
        JsonModel::Scalar => false,
    }
}

/// The document is made of arrays and objects alone.
pub open spec fn empty_tree(model: JsonModel) -> bool
    decreases model,
{
    match model {
        JsonModel::Array(items) => forall|i: int|
            0 <= i < items.len() ==> empty_tree(#[trigger] items[i]),
        JsonModel::Object(entries) => forall|i: int|
            0 <= i < entries.len() ==> empty_tree((#[trigger] entries[i]).1),
        _ => false,
    }
}

/// The network is among the listed ones.
pub open spec fn lists_network(networks: Seq<CanonicalCidr>, network: CidrModel) -> bool {
    exists|i: int| 0 <= i < networks.len() && (#[trigger] networks[i])@ == network
}

/// The list grew by the networks of a document.
pub open spec fn grew_by(
    before: Seq<CanonicalCidr>,
    after: Seq<CanonicalCidr>,
    model: JsonModel,
) -> bool {
    forall|network: CidrModel| #[trigger]
        lists_network(after, network) <==> lists_network(before, network) || holds_network(
            model,
            network,
        )
}

pub(crate) proof fn lemma_array(children: Seq<JsonModel>)
    ensures
        empty_tree(JsonModel::Array(children)) <==> forall|k: int|
            0 <= k < children.len() ==> empty_tree(#[trigger] children[k]),
        forall|network: CidrModel| #[trigger]
            holds_network(JsonModel::Array(children), network) <==> exists|k: int|
                0 <= k < children.len() && holds_network(#[trigger] children[k], network),
{
    reveal_with_fuel(empty_tree, 2);
    reveal_with_fuel(holds_network, 2);
    let model = JsonModel::Array(children);
    if empty_tree(model) {
        assert forall|k: int| 0 <= k < children.len() implies empty_tree(
            #[trigger] children[k],
        ) by {
            let child = model->Array_0[k];
            assert(empty_tree(child));
        }
    }
    if forall|k: int| 0 <= k < children.len() ==> empty_tree(#[trigger] children[k]) {
        assert(empty_tree(model));
    }
}

pub(crate) proof fn lemma_object(children: Seq<(Seq<char>, JsonModel)>)
    ensures
        empty_tree(JsonModel::Object(children)) <==> forall|k: int|
            0 <= k < children.len() ==> empty_tree((#[trigger] children[k]).1),
        forall|network: CidrModel| #[trigger]
            holds_network(JsonModel::Object(children), network) <==> exists|k: int|
                0 <= k < children.len() && holds_network((#[trigger] children[k]).1, network),
{
    reveal_with_fuel(empty_tree, 2);
    reveal_with_fuel(holds_network, 2);
    let model = JsonModel::Object(children);
    if empty_tree(model) {
        assert forall|k: int| 0 <= k < children.len() implies empty_tree(
            (#[trigger] children[k]).1,
        ) by {
            let child = model->Object_0[k].1;
            assert(empty_tree(child));
        }
    }
    if forall|k: int| 0 <= k < children.len() ==> empty_tree((#[trigger] children[k]).1) {
        assert(empty_tree(model));
    }
}

/// Appends the networks of a document and tells whether it is made of arrays and objects alone.
pub fn collect_networks(tree: &JsonTree, extracted: &mut Vec<CanonicalCidr>) -> (empty: bool)
    ensures
        empty == empty_tree(tree.model()),
        grew_by(old(extracted)@, final(extracted)@, tree.model()),
    decreases tree,
{
    let ghost model = tree.model();
    let ghost start = extracted@;
    match tree {
        JsonTree::Text(text) => {
            assert(model == JsonModel::Text(text@));
            if let Some(cidr) = parse_ip_cidr_non_strict(text.as_str()) {
                extracted.push(cidr);
                proof {
                    lemma_pushed(start, cidr);
                }
            }
            false
        },
        JsonTree::Scalar => false,
        JsonTree::Array(items) => {
            let ghost children = tree_models(items@);
            proof {
                lemma_tree_models(items@);
            }
            let mut n: usize = 0;
            let mut empty: bool = true;
            while n < items.len()
                invariant
                    *tree == JsonTree::Array(*items),
                    children == tree_models(items@),
                    children.len() == items@.len(),
                    start == old(extracted)@,
                    n <= items@.len(),
                    forall|k: int|
                        0 <= k < items@.len() ==> #[trigger] children[k] == items@[k].model(),
                    empty <==> forall|k: int| 0 <= k < n ==> empty_tree(#[trigger] children[k]),
                    forall|network: CidrModel| #[trigger]
                        lists_network(extracted@, network) <==> lists_network(start, network)
                            || exists|k: int|
                            0 <= k < n && holds_network(#[trigger] children[k], network),
                decreases items@.len() - n,
            {
                let ghost known = extracted@;
                let ghost at = n as int;
                assert(children[at] == items@[at].model());
                assert(decreases_to!(*tree => tree->Array_0));
                assert(decreases_to!(*items => items@));
                assert(decreases_to!(items@ => items@[at]));
                let bare: bool = collect_networks(&items[n], extracted);
                proof {
                    assert forall|network: CidrModel| #[trigger]
                        lists_network(extracted@, network) <==> lists_network(start, network)
                            || exists|k: int|
                            0 <= k < at + 1 && holds_network(#[trigger] children[k], network) by {
                        assert(lists_network(extracted@, network) <==> lists_network(known, network)
                            || holds_network(children[at], network));
                        if lists_network(known, network) && !lists_network(start, network) {
                            let k = choose|k: int|
                                0 <= k < at && holds_network(#[trigger] children[k], network);
                            assert(holds_network(children[k], network));
                        }
                    }
                    if !bare {
                        assert(!empty_tree(children[at]));
                    }
                }
                empty = empty && bare;
                n += 1;
            }
            proof {
                lemma_array(children);
            }
            empty
        },
        JsonTree::Object(entries) => {
            let ghost children = entry_models(entries@);
            proof {
                lemma_entry_models(entries@);
            }
            let mut n: usize = 0;
            let mut empty: bool = true;
            while n < entries.len()
                invariant
                    *tree == JsonTree::Object(*entries),
                    children == entry_models(entries@),
                    children.len() == entries@.len(),
                    start == old(extracted)@,
                    n <= entries@.len(),
                    forall|k: int|
                        0 <= k < entries@.len() ==> (#[trigger] children[k]).1
                            == entries@[k].1.model(),
                    empty <==> forall|k: int| 0 <= k < n ==> empty_tree((#[trigger] children[k]).1),
                    forall|network: CidrModel| #[trigger]
                        lists_network(extracted@, network) <==> lists_network(start, network)
                            || exists|k: int|
                            0 <= k < n && holds_network((#[trigger] children[k]).1, network),
                decreases entries@.len() - n,
            {
                let ghost known = extracted@;
                let ghost at = n as int;
                assert(children[at].1 == entries@[at].1.model());
                assert(decreases_to!(*tree => tree->Object_0));
                assert(decreases_to!(*entries => entries@));
                assert(decreases_to!(entries@ => entries@[at]));
                assert(decreases_to!(entries@[at] => entries@[at].1));
                let bare: bool = collect_networks(&entries[n].1, extracted);
                proof {
                    assert forall|network: CidrModel| #[trigger]
                        lists_network(extracted@, network) <==> lists_network(start, network)
                            || exists|k: int|
                            0 <= k < at + 1 && holds_network(
                                (#[trigger] children[k]).1,
                                network,
                            ) by {
                        assert(lists_network(extracted@, network) <==> lists_network(known, network)
                            || holds_network(children[at].1, network));
                        if lists_network(known, network) && !lists_network(start, network) {
                            let k = choose|k: int|
                                0 <= k < at && holds_network((#[trigger] children[k]).1, network);
                            assert(holds_network(children[k].1, network));
                        }
                    }
                    if !bare {
                        assert(!empty_tree(children[at].1));
                    }
                }
                empty = empty && bare;
                n += 1;
            }
            proof {
                lemma_object(children);
            }
            empty
        },
    }
}

proof fn lemma_pushed(networks: Seq<CanonicalCidr>, cidr: CanonicalCidr)
    ensures
        forall|network: CidrModel| #[trigger]
            lists_network(networks.push(cidr), network) <==> lists_network(networks, network)
                || cidr@ == network,
{
    let after = networks.push(cidr);
    assert forall|network: CidrModel| #[trigger] lists_network(after, network) <==> lists_network(
        networks,
        network,
    ) || cidr@ == network by {
        if lists_network(networks, network) {
            let i = choose|i: int|
                0 <= i < networks.len() && (#[trigger] networks[i])@ == network;
            assert(after[i]@ == network);
        }
        if lists_network(after, network) {
            let i = choose|i: int| 0 <= i < after.len() && (#[trigger] after[i])@ == network;
            if i < networks.len() {
                assert(networks[i]@ == network);
            }
        }
        assert(after[networks.len() as int] == cidr);
    }
}

// Selections ------------------------------------------------------------------------------------

/// A key of an object.
pub open spec fn has_key(entries: Seq<(Seq<char>, JsonModel)>, key: Seq<char>) -> bool {
    exists|i: int| 0 <= i < entries.len() && (#[trigger] entries[i]).0 == key
}

/// The document has what is selected: any document where all of it is, and an object with each of
/// the selected keys otherwise.
pub open spec fn selection_present(model: JsonModel, selected: Option<Seq<Seq<char>>>) -> bool {
    match selected {
        None => true,
        Some(keys) => match model {
            JsonModel::Object(entries) => forall|k: int|
                0 <= k < keys.len() ==> has_key(entries, #[trigger] keys[k]),
            _ => false,
        },
    }
}

/// The selected part of the document holds the network.
pub open spec fn selection_holds(
    model: JsonModel,
    selected: Option<Seq<Seq<char>>>,
    network: CidrModel,
) -> bool {
    match selected {
        None => holds_network(model, network),
        Some(keys) => match model {
            JsonModel::Object(entries) => exists|i: int|
                0 <= i < entries.len() && keys.contains((#[trigger] entries[i]).0) && holds_network(
                    entries[i].1,
                    network,
                ),
            _ => false,
        },
    }
}

/// The selected part of the document is made of arrays and objects alone.
pub open spec fn selection_empty(model: JsonModel, selected: Option<Seq<Seq<char>>>) -> bool {
    match selected {
        None => empty_tree(model),
        Some(keys) => match model {
            JsonModel::Object(entries) => forall|i: int|
                0 <= i < entries.len() && keys.contains((#[trigger] entries[i]).0) ==> empty_tree(
                    entries[i].1,
                ),
            _ => false,
        },
    }
}

/// Networks of the selected part of a document: none where the part is missing, or where it holds
/// no network though it holds something.
pub open spec fn extraction(
    model: JsonModel,
    selected: Option<Seq<Seq<char>>>,
    outcome: Option<Vec<CanonicalCidr>>,
) -> bool {
    let found = exists|network: CidrModel| #[trigger] selection_holds(model, selected, network);
    match outcome {
        Some(networks) => {
            &&& selection_present(model, selected)
            &&& found || selection_empty(model, selected)
            &&& ascending_cidrs(networks@)
            &&& forall|network: CidrModel| #[trigger]
                lists_network(networks@, network) <==> selection_holds(model, selected, network)
        },
        None => !selection_present(model, selected) || (!found && !selection_empty(model, selected)),
    }
}

fn names_key(keys: &Vec<String>, key: &String) -> (found: bool)
    ensures
        found == views(keys@).contains(key@),
{
    let mut i: usize = 0;
    while i < keys.len()
        invariant
            i <= keys@.len(),
            forall|k: int| 0 <= k < i ==> (#[trigger] keys@[k])@ != key@,
        decreases keys@.len() - i,
    {
        if same_text(keys[i].as_str(), key.as_str()) {
            assert(views(keys@)[i as int] == key@);
            return true;
        }
        i += 1;
    }
    false
}

fn object_has_key(entries: &Vec<(String, JsonTree)>, key: &String) -> (found: bool)
    ensures
        found == has_key(entry_models(entries@), key@),
{
    let ghost all = entry_models(entries@);
    proof {
        lemma_entry_models(entries@);
    }
    let mut i: usize = 0;
    while i < entries.len()
        invariant
            i <= entries@.len(),
            all == entry_models(entries@),
            all.len() == entries@.len(),
            forall|k: int| 0 <= k < all.len() ==> (#[trigger] all[k]).0 == entries@[k].0@,
            forall|k: int| 0 <= k < i ==> (#[trigger] all[k]).0 != key@,
        decreases entries@.len() - i,
    {
        let entry: &(String, JsonTree) = &entries[i];
        assert(all[i as int].0 == entries@[i as int].0@);
        if same_text(entry.0.as_str(), key.as_str()) {
            assert(all[i as int].0 == key@);
            return true;
        }
        assert(all[i as int].0 != key@);
        i += 1;
    }
    false
}

/// Appends the networks under the selected keys of an object and tells whether what stands under
/// them is made of arrays and objects alone.
fn collect_selected(
    entries: &Vec<(String, JsonTree)>,
    keys: &Vec<String>,
    extracted: &mut Vec<CanonicalCidr>,
) -> (empty: bool)
    ensures
        ({
            let model = JsonModel::Object(entry_models(entries@));
            let selected = Some(views(keys@));
            &&& empty == selection_empty(model, selected)
            &&& forall|network: CidrModel| #[trigger]
                lists_network(final(extracted)@, network) <==> lists_network(
                    old(extracted)@,
                    network,
                ) || selection_holds(model, selected, network)
        }),
{
    let ghost children = entry_models(entries@);
    let ghost start = extracted@;
    let ghost names = views(keys@);
    proof {
        lemma_entry_models(entries@);
    }
    let mut n: usize = 0;
    let mut empty: bool = true;
    while n < entries.len()
        invariant
            start == old(extracted)@,
            names == views(keys@),
            children.len() == entries@.len(),
            n <= entries@.len(),
            forall|k: int|
                0 <= k < children.len() ==> #[trigger] children[k] == (
                    entries@[k].0@,
                    entries@[k].1.model(),
                ),
            empty <==> forall|k: int|
                0 <= k < n && names.contains((#[trigger] children[k]).0) ==> empty_tree(
                    children[k].1,
                ),
            forall|network: CidrModel| #[trigger]
                lists_network(extracted@, network) <==> lists_network(start, network) || exists|
                    k: int,
                |
                    0 <= k < n && names.contains((#[trigger] children[k]).0) && holds_network(
                        children[k].1,
                        network,
                    ),
        decreases entries@.len() - n,
    {
        let ghost known = extracted@;
        let ghost at = n as int;
        let entry: &(String, JsonTree) = &entries[n];
        assert(children[at] == (entry.0@, entry.1.model()));
        let chosen: bool = names_key(keys, &entry.0);
        let mut bare: bool = true;
        if chosen {
            bare = collect_networks(&entry.1, extracted);
        }
        proof {
            assert forall|network: CidrModel| #[trigger]
                lists_network(extracted@, network) <==> lists_network(start, network) || exists|
                    k: int,
                |
                    0 <= k < at + 1 && names.contains((#[trigger] children[k]).0) && holds_network(
                        children[k].1,
                        network,
                    ) by {
                assert(lists_network(extracted@, network) <==> lists_network(known, network) || (
                chosen && holds_network(children[at].1, network)));
                if lists_network(known, network) && !lists_network(start, network) {
                    let k = choose|k: int|
                        0 <= k < at && names.contains((#[trigger] children[k]).0) && holds_network(
                            children[k].1,
                            network,
                        );
                    assert(names.contains(children[k].0));
                }
            }
            if !bare {
                assert(names.contains(children[at].0) && !empty_tree(children[at].1));
            }
        }
        empty = empty && bare;
        n += 1;
    }
    proof {
        let model = JsonModel::Object(children);
        let selected = Some(names);
        let held = model->Object_0;
        assert(n == children.len());
        assert(held == children);
        if empty {
            assert forall|i: int| 0 <= i < held.len() && names.contains(
                (#[trigger] held[i]).0,
            ) implies empty_tree(held[i].1) by {
                assert(held[i] == children[i]);
            }
        } else {
            let k = choose|k: int|
                0 <= k < n && names.contains((#[trigger] children[k]).0) && !empty_tree(
                    children[k].1,
                );
            assert(held[k] == children[k]);
        }
        assert(empty == selection_empty(model, selected));
        assert forall|network: CidrModel| #[trigger] lists_network(extracted@, network) <==> (
        lists_network(start, network) || selection_holds(model, selected, network)) by {
            if exists|k: int|
                0 <= k < n && names.contains((#[trigger] children[k]).0) && holds_network(
                    children[k].1,
                    network,
                ) {
                let k = choose|k: int|
                    0 <= k < n && names.contains((#[trigger] children[k]).0) && holds_network(
                        children[k].1,
                        network,
                    );
                assert(held[k] == children[k]);
                assert(selection_holds(model, selected, network));
            }
            if selection_holds(model, selected, network) {
                let k = choose|k: int|
                    0 <= k < held.len() && names.contains((#[trigger] held[k]).0) && holds_network(
                        held[k].1,
                        network,
                    );
                assert(held[k] == children[k]);
            }
        }
    }
    empty
}

/// Extracts the networks of the selected part of a document.
pub fn extract_networks(tree: &JsonTree, selected: Option<&Vec<String>>) -> (outcome: Option<
    Vec<CanonicalCidr>,
>)
    ensures
        extraction(
            tree.model(),
            match selected {
                Some(keys) => Some(views(keys@)),
                None => None,
            },
            outcome,
        ),
{
    let ghost model = tree.model();
    let ghost chosen: Option<Seq<Seq<char>>> = match selected {
        Some(keys) => Some(views(keys@)),
        None => None,
    };
    let mut extracted: Vec<CanonicalCidr> = Vec::new();
    let ghost none = extracted@;
    let empty: bool = match selected {
        None => collect_networks(tree, &mut extracted),
        Some(keys) => match tree {
            JsonTree::Object(entries) => {
                let mut i: usize = 0;
                while i < keys.len()
                    invariant
                        i <= keys@.len(),
                        model == JsonModel::Object(entry_models(entries@)),
                        model == tree.model(),
                        selected == Some(keys),
                        chosen == Some(views(keys@)),
                        forall|k: int|
                            0 <= k < i ==> has_key(
                                entry_models(entries@),
                                #[trigger] views(keys@)[k],
                            ),
                    decreases keys@.len() - i,
                {
                    if !object_has_key(entries, &keys[i]) {
                        assert(!has_key(entry_models(entries@), views(keys@)[i as int]));
                        return None;
                    }
                    i += 1;
                }
                collect_selected(entries, keys, &mut extracted)
            },
            _ => {
                return None;
            },
        },
    };
    let ghost all = extracted@;
    proof {
        assert forall|network: CidrModel| #[trigger] lists_network(all, network) <==> selection_holds(
            model,
            chosen,
            network,
        ) by {
            assert(!lists_network(none, network));
        }
    }
    let networks: Vec<CanonicalCidr> = sort_distinct(extracted);
    proof {
        assert forall|network: CidrModel| #[trigger]
            lists_network(networks@, network) <==> lists_network(all, network) by {
            if lists_network(networks@, network) {
                let i = choose|i: int|
                    0 <= i < networks@.len() && (#[trigger] networks@[i])@ == network;
                assert(networks@.contains(networks@[i]));
                assert(all.contains(networks@[i]));
                let j = choose|j: int| 0 <= j < all.len() && all[j] == networks@[i];
                assert(all[j]@ == network);
            }
            if lists_network(all, network) {
                let i = choose|i: int| 0 <= i < all.len() && (#[trigger] all[i])@ == network;
                assert(all.contains(all[i]));
                assert(networks@.contains(all[i]));
                let j = choose|j: int| 0 <= j < networks@.len() && networks@[j] == all[i];
                assert(networks@[j]@ == network);
            }
        }
        if networks@.len() > 0 {
            assert(lists_network(networks@, networks@[0]@));
            assert(selection_holds(model, chosen, networks@[0]@));
        } else if exists|network: CidrModel| #[trigger] selection_holds(model, chosen, network) {
            let network = choose|network: CidrModel| #[trigger]
                selection_holds(model, chosen, network);
            assert(lists_network(networks@, network));
        }
    }
    if networks.len() == 0 && !empty {
        return None;
    }
    Some(networks)
}

/// Extracts the networks of the selected part of a document in bytes; none where the bytes are no
/// document.
pub fn parse_and_extract_networks(raw: &[u8], selected: Option<&Vec<String>>) -> (outcome: Option<
    Vec<CanonicalCidr>,
>)
    ensures
        match json_parse(raw@) {
            Some(model) => extraction(
                model,
                match selected {
                    Some(keys) => Some(views(keys@)),
                    None => None,
                },
                outcome,
            ),
            None => outcome is None,
        },
{
    match parse_value(raw) {
        Some(value) => extract_networks(&tree_of(value), selected),
        None => None,
    }
}

} // verus!
