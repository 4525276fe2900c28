//! The layer index: which archive members each layer declares, and which
//! layers of the index an extraction covers.

use crate::index::IndexError;
use crate::text::texts;
use crate::tree::{strings_in, strings_of, trees, Node, Tree};
use vstd::prelude::*;

verus! {

/// A layer of the index: its name and the members that it declares, in
/// the order of the index.
#[derive(Debug, Clone, PartialEq, Eq)]
pub struct Layer {
    pub name: String,
    pub files: Vec<String>,
}

/// What a `Layer` holds, as sequences of characters.
pub struct LayerModel {
    pub name: Seq<char>,
    pub files: Seq<Seq<char>>,
}

impl View for Layer {
    type V = LayerModel;

    open spec fn view(&self) -> LayerModel {
        LayerModel { name: self.name@, files: texts(self.files@) }
    }
}

/// The views of a sequence of layers.
pub open spec fn layer_models(layers: Seq<Layer>) -> Seq<LayerModel> {
    layers.map_values(|layer: Layer| layer@)
}

/// The names of a sequence of layers.
pub open spec fn names_of(layers: Seq<LayerModel>) -> Seq<Seq<char>> {
    layers.map_values(|layer: LayerModel| layer.name)
}

/// The members that the value of a layer mapping declares: the strings of
/// a sequence, and nothing where the value is anything else.
pub open spec fn declared_files(value: Tree) -> Seq<Seq<char>> {
    match value {
        Tree::List(items) => strings_in(items),
        _ => Seq::empty(),
    }
}

/// Whether `entry` is a mapping with exactly one entry.
pub open spec fn is_layer_mapping(entry: Tree) -> bool {
    entry matches Tree::Table(pairs) && pairs.len() == 1
}

/// The layer that a layer mapping stands for: its one key is the name, the
/// value of that key declares the members. A key that is no string names no
/// layer.
pub open spec fn layer_in(entry: Tree) -> Option<LayerModel> {
    match entry {
        Tree::Table(pairs) => if pairs.len() == 1 {
            match pairs[0].key {
                Tree::Text(name) => Some(LayerModel { name, files: declared_files(pairs[0].value) }),
                _ => None,
            }
        } else {
            None
        },
        _ => None,
    }
}

/// Whether a layer of this name is asked for: every layer is where nothing
/// is requested, else the layers whose name is among `requested`.
pub open spec fn is_wanted(name: Seq<char>, requested: Seq<Seq<char>>) -> bool {
    requested.len() == 0 || requested.contains(name)
}

/// The layer of `entry`, where it names one that is asked for.
pub open spec fn chosen(entry: Tree, requested: Seq<Seq<char>>) -> Option<LayerModel> {
    match layer_in(entry) {
        Some(layer) => if is_wanted(layer.name, requested) {
            Some(layer)
        } else {
            None
        },
        None => None,
    }
}

/// The layers of `entries` that are asked for, in the order of `entries`.
pub open spec fn chosen_layers(entries: Seq<Tree>, requested: Seq<Seq<char>>) -> Seq<LayerModel>
    decreases entries.len(),
{
    if entries.len() == 0 {
        Seq::empty()
    } else {
        let before = chosen_layers(entries.drop_last(), requested);
        match chosen(entries.last(), requested) {
            Some(layer) => before.push(layer),
            None => before,
        }
    }
}

/// The layers to extract from the layer index `tree`. The index must be a
/// sequence of mappings with one entry each; of these, the layers that are
/// asked for are kept, in the order of the index.
pub open spec fn plan_of(tree: Tree, requested: Seq<Seq<char>>) -> Result<
    Seq<LayerModel>,
    IndexError,
> {
    match tree {
        Tree::List(entries) => if forall|i: int|
            0 <= i < entries.len() ==> is_layer_mapping(#[trigger] entries[i]) {
            Ok(chosen_layers(entries, requested))
        } else {
            Err(IndexError::ExpectedLayerMappings)
        },
        _ => Err(IndexError::ExpectedLayerMappings),
    }
}

/// Whether `r` is the outcome `expected`, up to the views of the layers.
pub open spec fn is_plan(
    r: Result<Vec<Layer>, IndexError>,
    expected: Result<Seq<LayerModel>, IndexError>,
) -> bool {
    match r {
        Ok(layers) => expected == Ok::<Seq<LayerModel>, IndexError>(layer_models(layers@)),
        Err(e) => expected == Err::<Seq<LayerModel>, IndexError>(e),
    }
}

/// Whether a layer named `name` is asked for.
pub fn is_requested(name: &String, requested: &Vec<String>) -> (r: bool)
    ensures
        r == is_wanted(name@, texts(requested@)),
{
    if requested.len() == 0 {
        return true;
    }
    let mut i: usize = 0;
    while i < requested.len()
        invariant
            i <= requested.len(),
            forall|j: int| 0 <= j < i ==> texts(requested@)[j] != name@,
        decreases requested.len() - i,
    {
        if requested[i] == *name {
            assert(texts(requested@)[i as int] == name@);
            return true;
        }
        i += 1;
    }
    false
}

/// The members that the value of a layer mapping declares.
fn files_of(value: &Node) -> (files: Vec<String>)
    ensures
        texts(files@) == declared_files(value@),
{
    match value {
        Node::List(items) => {
            proof {
                crate::tree::lemma_view_of_list(*items);
            }
            strings_of(items)
        },
        _ => {
            let files: Vec<String> = Vec::new();
            assert(texts(files@) =~= Seq::<Seq<char>>::empty());
            files
        },
    }
}

/// The layers to extract from the layer index `tree`, in the order of the
/// index: all of them where `requested` is empty, else those whose name is
/// among `requested`.
pub fn plan(tree: &Node, requested: &Vec<String>) -> (r: Result<Vec<Layer>, IndexError>)
    ensures
        is_plan(r, plan_of(tree@, texts(requested@))),
{
    let entries = match tree {
        Node::List(entries) => entries,
        _ => {
            return Err(IndexError::ExpectedLayerMappings);
        },
    };
    let ghost all = trees(entries@);
    let ghost asked = texts(requested@);
    proof {
        crate::tree::lemma_view_of_list(*entries);
    }
    let mut layers: Vec<Layer> = Vec::new();
    let mut i: usize = 0;
    proof {
        assert(layer_models(layers@) =~= chosen_layers(all.take(0), asked));
    }
    while i < entries.len()
        invariant
            i <= entries.len(),
            all == trees(entries@),
            asked == texts(requested@),
            tree@ == Tree::List(all),
            forall|j: int| 0 <= j < i ==> is_layer_mapping(#[trigger] all[j]),
            layer_models(layers@) == chosen_layers(all.take(i as int), asked),
        decreases entries.len() - i,
    {
        proof {
            assert(all.take(i + 1).drop_last() =~= all.take(i as int));
            assert(all.take(i + 1).last() == entries@[i as int]@);
            assert(all[i as int] == entries@[i as int]@);
        }
        match &entries[i] {
            Node::Table(pairs) => {
                proof {
                    crate::tree::lemma_view_of_table(*pairs);
                }
                if pairs.len() != 1 {
                    assert(!is_layer_mapping(all[i as int]));
                    return Err(IndexError::ExpectedLayerMappings);
                }
                match &pairs[0].key {
                    Node::Text(name) => {
                        if is_requested(name, requested) {
                            let layer = Layer { name: name.clone(), files: files_of(&pairs[0].value) };
                            proof {
                                assert(layer_models(layers@.push(layer)) =~= layer_models(
                                    layers@,
                                ).push(layer@));
                                assert(layer@ == layer_in(all[i as int])->0);
                            }
                            layers.push(layer);
                        }
                    },
                    _ => {},
                }
            },
            _ => {
                assert(!is_layer_mapping(all[i as int]));
                return Err(IndexError::ExpectedLayerMappings);
            },
        }
        i += 1;
    }
    proof {
        assert(all.take(entries@.len() as int) =~= all);
    }
    Ok(layers)
}

/// The names of the layers of the layer index `tree`, in the order of the
/// index.
pub fn layer_names(tree: &Node) -> (r: Result<Vec<String>, IndexError>)
    ensures
        match r {
            Ok(names) => plan_of(tree@, Seq::empty()) matches Ok(layers) && texts(names@)
                == names_of(layers),
            Err(e) => plan_of(tree@, Seq::empty()) == Err::<Seq<LayerModel>, IndexError>(e),
        },
{
    let everything: Vec<String> = Vec::new();
    assert(texts(everything@) =~= Seq::<Seq<char>>::empty());
    let layers = plan(tree, &everything)?;
    let mut names: Vec<String> = Vec::new();
    let mut i: usize = 0;
    while i < layers.len()
        invariant
            i <= layers.len(),
            texts(names@) == names_of(layer_models(layers@)).take(i as int),
        decreases layers.len() - i,
    {
        let name = layers[i].name.clone();
        proof {
            let every = names_of(layer_models(layers@));
            assert(every[i as int] == name@);
            assert(every.take(i + 1) =~= every.take(i as int).push(name@));
            assert(texts(names@.push(name)) =~= texts(names@).push(name@));
        }
        names.push(name);
        i += 1;
    }
    proof {
        let every = names_of(layer_models(layers@));
        assert(every.take(layers@.len() as int) =~= every);
    }
    Ok(names)
}

} // verus!
