//! Manifests of the Ollama store: the name of a model and the file that holds it.

use vstd::prelude::*;

use crate::call_syntax::as_string;
use crate::call_syntax::string_in;
use crate::json::item_pointer;
use crate::json::json_at;
use crate::json::json_node;
use crate::json::push_item;
use crate::json::JsonKind;
use crate::json::Shape;
use crate::ollama_types::option_text;
use crate::path::components_below;
use crate::path::file_stem;
use crate::path::join_path;
use crate::path::joined_path;
use crate::path::lists_view;
use crate::path::path_below;
use crate::path::stem_of;
use crate::text::chars_of;
use crate::text::copy_str;
use crate::text::push_all;
use crate::text::same_chars;
use crate::text::same_text;
use crate::text::string_of;
use crate::text::swap_char;
use crate::text::swapped;

verus! {

/// What a manifest says of one of its layers.
pub struct Layer {
    pub media_type: Option<String>,
    pub digest: Option<String>,
}

/// The mathematical form of a [`Layer`].
pub struct LayerView {
    pub media_type: Option<Seq<char>>,
    pub digest: Option<Seq<char>>,
}

impl View for Layer {
    type V = LayerView;

    open spec fn view(&self) -> LayerView {
        LayerView {
            media_type: option_text(self.media_type),
            digest: option_text(self.digest),
        }
    }
}

/// The mathematical form of a list of layers.
pub open spec fn layers_view(layers: Seq<Layer>) -> Seq<LayerView> {
    Seq::new(layers.len(), |i: int| layers[i]@)
}

/// The digest of the first layer that holds a model.
pub open spec fn model_digest(layers: Seq<LayerView>) -> Option<Seq<char>>
    decreases layers.len(),
{
    if layers.len() == 0 {
        None
    } else if layers[0].media_type == Some("application/vnd.ollama.image.model"@) {
        layers[0].digest
    } else {
        model_digest(layers.skip(1))
    }
}

/// The string at a member of a layer.
pub open spec fn layer_string(content: Seq<char>, i: nat, member: Seq<char>) -> Option<Seq<char>> {
    as_string(json_node(content, "/layers"@ + item_pointer(i) + member))
}

/// The layers of a manifest. None where it has no list of layers.
pub open spec fn manifest_layers(content: Seq<char>) -> Option<Seq<LayerView>> {
    match json_node(content, "/layers"@) {
        Some(node) => match node.shape {
            Shape::Array(n) => Some(
                Seq::new(
                    n,
                    |i: int|
                        LayerView {
                            media_type: layer_string(content, i as nat, "/mediaType"@),
                            digest: layer_string(content, i as nat, "/digest"@),
                        },
                ),
            ),
            _ => None,
        },
        None => None,
    }
}

/// `model:tag`, with `namespace/` before it unless that is `library`.
pub open spec fn qualified_name(namespace: Seq<char>, model: Seq<char>, tag: Seq<char>) -> Seq<char> {
    if namespace == "library"@ {
        model + seq![':'] + tag
    } else {
        namespace + seq!['/'] + model + seq![':'] + tag
    }
}

/// The name of the model of a manifest, from the components of its path below the
/// store of manifests: host, namespace, model and tag, or the same without the
/// host; or else the name of the file.
pub open spec fn manifest_name(below: Seq<Seq<char>>, stem: Option<Seq<char>>) -> Seq<char> {
    if below.len() == 4 {
        qualified_name(below[1], below[2], below[3])
    } else if below.len() == 3 {
        qualified_name(below[0], below[1], below[2])
    } else {
        match stem {
            Some(s) => s,
            None => "model"@,
        }
    }
}

/// The name of the model of a manifest, and the path of the file that holds it.
/// None where the manifest does not lie in the store.
pub open spec fn manifest_model(
    digest: Seq<char>,
    root: Seq<char>,
    file: Seq<char>,
    blobs: Seq<char>,
) -> Option<(Seq<char>, Seq<char>)> {
    match path_below(file, root) {
        Some(below) => Some(
            (
                manifest_name(below, file_stem(file)),
                join_path(blobs, swap_char(digest, ':', '-')),
            ),
        ),
        None => None,
    }
}

/// The digest of the first layer that holds a model.
pub fn find_model_digest(layers: &Vec<Layer>) -> (r: Option<String>)
    ensures
        option_text(r) == model_digest(layers_view(layers@)),
{
    let ghost all = layers_view(layers@);
    let mut i: usize = 0;
    proof {
        assert(all.skip(0) =~= all);
    }
    while i < layers.len()
        invariant
            all == layers_view(layers@),
            i <= layers@.len(),
            model_digest(all) == model_digest(all.skip(i as int)),
        decreases layers@.len() - i,
    {
        let layer = &layers[i];
        proof {
            assert(all.skip(i as int)[0] == layer@);
            assert(all.skip(i as int).skip(1) =~= all.skip(i + 1));
        }
        let is_model: bool = match &layer.media_type {
            Some(t) => same_text(t.as_str(), "application/vnd.ollama.image.model"),
            None => false,
        };
        if is_model {
            return match &layer.digest {
                Some(d) => Some(copy_str(d.as_str())),
                None => None,
            };
        }
        i = i + 1;
    }
    None
}

/// The string at a member of a layer.
fn read_layer_string(content: &str, i: usize, member: &str) -> (r: Option<String>)
    ensures
        option_text(r) == layer_string(content@, i as nat, member@),
{
    let mut place = chars_of("/layers");
    push_item(&mut place, i);
    let tail = chars_of(member);
    push_all(&mut place, tail.as_slice());
    proof {
        assert(place@ =~= "/layers"@ + item_pointer(i as nat) + member@);
    }
    let pointer = string_of(place.as_slice());
    string_in(json_at(content, pointer.as_str()))
}

/// Reads the layers of a manifest.
fn read_layers(content: &str) -> (r: Option<Vec<Layer>>)
    ensures
        match r {
            Some(layers) => manifest_layers(content@) == Some(layers_view(layers@)),
            None => manifest_layers(content@) is None,
        },
{
    let n: usize = match json_at(content, "/layers") {
        Some(node) => match node.kind {
            JsonKind::Array(n) => n,
            _ => {
                return None;
            },
        },
        None => {
            return None;
        },
    };
    let ghost all = manifest_layers(content@)->0;
    let mut layers: Vec<Layer> = Vec::new();
    let mut i: usize = 0;
    while i < n
        invariant
            manifest_layers(content@) == Some(all),
            all.len() == n,
            forall|k: int|
                0 <= k < n ==> #[trigger] all[k] == (LayerView {
                    media_type: layer_string(content@, k as nat, "/mediaType"@),
                    digest: layer_string(content@, k as nat, "/digest"@),
                }),
            i <= n,
            layers@.len() == i,
            forall|k: int| 0 <= k < i ==> (#[trigger] layers@[k])@ == all[k],
        decreases n - i,
    {
        layers.push(
            Layer {
                media_type: read_layer_string(content, i, "/mediaType"),
                digest: read_layer_string(content, i, "/digest"),
            },
        );
        i = i + 1;
    }
    proof {
        assert(layers_view(layers@) =~= all);
    }
    Some(layers)
}

/// `model:tag`, with `namespace/` before it unless that is `library`.
fn write_qualified_name(namespace: &[char], model: &[char], tag: &[char]) -> (r: String)
    ensures
        r@ == qualified_name(namespace@, model@, tag@),
{
    let library = chars_of("library");
    let mut out: Vec<char> = Vec::new();
    if !same_chars(namespace, library.as_slice()) {
        push_all(&mut out, namespace);
        out.push('/');
    }
    push_all(&mut out, model);
    out.push(':');
    push_all(&mut out, tag);
    proof {
        assert(out@ =~= qualified_name(namespace@, model@, tag@));
    }
    string_of(out.as_slice())
}

/// The name of the model of a manifest, and the path of the file that holds it,
/// from the digest of its layer.
pub fn model_of_digest(digest: &str, root: &str, file: &str, blobs: &str) -> (r: Option<(String, String)>)
    ensures
        match r {
            Some((name, path)) => manifest_model(digest@, root@, file@, blobs@) == Some(
                (name@, path@),
            ),
            None => manifest_model(digest@, root@, file@, blobs@) is None,
        },
{
    match components_below(file, root) {
        Some(below) => {
            proof {
                assert(lists_view(below@).len() == below@.len());
            }
            let name = if below.len() == 4 {
                write_qualified_name(below[1].as_slice(), below[2].as_slice(), below[3].as_slice())
            } else if below.len() == 3 {
                write_qualified_name(below[0].as_slice(), below[1].as_slice(), below[2].as_slice())
            } else {
                match stem_of(file) {
                    Some(stem) => stem,
                    None => copy_str("model"),
                }
            };
            let chars = chars_of(digest);
            let blob = string_of(swapped(chars.as_slice(), ':', '-').as_slice());
            Some((name, joined_path(blobs, blob.as_str())))
        },
        None => None,
    }
}

/// The name of the model of a manifest, and the path of the file that holds it.
/// `content` is the text of the manifest; `root` and `blobs` are the directories
/// of the manifests and of the files, and `file` is the path of the manifest.
pub fn parse_ollama_manifest(content: &str, root: &str, file: &str, blobs: &str) -> (r: Option<
    (String, String),
>)
    ensures
        ({
            let wanted = match manifest_layers(content@) {
                Some(layers) => match model_digest(layers) {
                    Some(digest) => manifest_model(digest, root@, file@, blobs@),
                    None => None,
                },
                None => None,
            };
            match r {
                Some((name, path)) => wanted == Some((name@, path@)),
                None => wanted is None,
            }
        }),
{
    match read_layers(content) {
        Some(layers) => match find_model_digest(&layers) {
            Some(digest) => model_of_digest(digest.as_str(), root, file, blobs),
            None => None,
        },
        None => None,
    }
}

// ---------------------------------------------------------------------------
// Laws of manifests

/// A model of the public library is named after its directory and its tag, without
/// a namespace.
pub proof fn law_library_models_have_short_names(
    below: Seq<Seq<char>>,
    stem: Option<Seq<char>>,
)
    requires
        below.len() == 4,
        below[1] == "library"@,
    ensures
        manifest_name(below, stem) == below[2] + seq![':'] + below[3],
{
}

/// The file of a digest `sha256:...` is the blob `sha256-...`.
pub proof fn law_digest_names_blob(
    hash: Seq<char>,
    root: Seq<char>,
    file: Seq<char>,
    blobs: Seq<char>,
)
    requires
        !hash.contains(':'),
        path_below(file, root) is Some,
    ensures
        manifest_model("sha256:"@ + hash, root, file, blobs) matches Some((_, path)) && path
            == join_path(blobs, "sha256-"@ + hash),
{
    reveal_strlit("sha256:");
    reveal_strlit("sha256-");
    let digest = "sha256:"@ + hash;
    assert forall|i: int| 0 <= i < hash.len() implies hash[i] != ':' by {
        assert(hash.contains(hash[i]));
    }
    assert(swap_char(digest, ':', '-') =~= "sha256-"@ + hash);
}

} // verus!
