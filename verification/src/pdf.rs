//! Taking a PDF document apart: where the parts of the document go.

use crate::text::{decimal, push_decimal, str_eq};
use vstd::prelude::*;

verus! {

/// Directory that receives everything taken out of a document.
pub const OUTPUT_DIR: &'static str = "output";

/// The file that receives the dump of the object numbered `id`.
pub open spec fn raw_object_name(id: nat) -> Seq<char> {
    OUTPUT_DIR@ + "/raw_objects/obj_"@ + decimal(id) + ".txt"@
}

/// The file that receives the script numbered `n`.
pub open spec fn script_name(n: nat) -> Seq<char> {
    OUTPUT_DIR@ + "/js/script_"@ + decimal(n) + ".js"@
}

/// The file that receives the dictionary of the image numbered `n`.
pub open spec fn image_dictionary_name(n: nat) -> Seq<char> {
    OUTPUT_DIR@ + "/images/image_"@ + decimal(n) + ".raw"@
}

/// The file that receives the content of the image numbered `n`.
pub open spec fn image_content_name(n: nat) -> Seq<char> {
    OUTPUT_DIR@ + "/images/image_"@ + decimal(n) + ".unknowext.png"@
}

/// The file that receives the metadata of the document.
pub open spec fn metadata_name() -> Seq<char> {
    OUTPUT_DIR@ + "/metadata.txt"@
}

/// Executable form of [`raw_object_name`].
pub fn raw_object_path(id: u32) -> (path: String)
    ensures
        path@ == raw_object_name(id as nat),
{
    let mut path = String::from_str(OUTPUT_DIR);
    path.append("/raw_objects/obj_");
    push_decimal(&mut path, id as u64);
    path.append(".txt");
    path
}

/// Executable form of [`metadata_name`].
pub fn metadata_path() -> (path: String)
    ensures
        path@ == metadata_name(),
{
    let mut path = String::from_str(OUTPUT_DIR);
    path.append("/metadata.txt");
    path
}

/// What a stream of a document says of itself: the names under `Type` and
/// `Subtype` of its dictionary, as far as it has them.
pub struct StreamInfo {
    pub kind: Option<String>,
    pub subtype: Option<String>,
}

/// Whether a stream is a script.
pub open spec fn is_script(stream: StreamInfo) -> bool {
    stream.kind is Some && stream.kind->0@ == "JavaScript"@
}

/// Whether a stream is an image.
pub open spec fn is_image(stream: StreamInfo) -> bool {
    stream.subtype is Some && stream.subtype->0@ == "Image"@
}

/// The number of scripts among `streams`.
pub open spec fn script_count(streams: Seq<StreamInfo>) -> nat
    decreases streams.len(),
{
    if streams.len() == 0 {
        0
    } else {
        script_count(streams.drop_last()) + if is_script(streams.last()) {
            1nat
        } else {
            0nat
        }
    }
}

/// The number of images among `streams`.
pub open spec fn image_count(streams: Seq<StreamInfo>) -> nat
    decreases streams.len(),
{
    if streams.len() == 0 {
        0
    } else {
        image_count(streams.drop_last()) + if is_image(streams.last()) {
            1nat
        } else {
            0nat
        }
    }
}

/// Where the parts of one stream go, as plain values.
pub struct StreamPlanView {
    pub script: Option<Seq<char>>,
    pub image: Option<(Seq<char>, Seq<char>)>,
}

/// Where the parts of one stream go: the file for its content if it is a
/// script; the file for its dictionary and the file for its content if it
/// is an image.
pub struct StreamPlan {
    pub script: Option<String>,
    pub image: Option<(String, String)>,
}

impl View for StreamPlan {
    type V = StreamPlanView;

    open spec fn view(&self) -> StreamPlanView {
        StreamPlanView {
            script: match self.script {
                Some(path) => Some(path@),
                None => None,
            },
            image: match self.image {
                Some((dictionary, content)) => Some((dictionary@, content@)),
                None => None,
            },
        }
    }
}

/// Where the parts of the stream at `at` go: scripts and images are
/// numbered from zero, each kind by itself, in the order of the streams.
pub open spec fn stream_plan(streams: Seq<StreamInfo>, at: int) -> StreamPlanView {
    StreamPlanView {
        script: if is_script(streams[at]) {
            Some(script_name(script_count(streams.take(at))))
        } else {
            None
        },
        image: if is_image(streams[at]) {
            Some(
                (
                    image_dictionary_name(image_count(streams.take(at))),
                    image_content_name(image_count(streams.take(at))),
                ),
            )
        } else {
            None
        },
    }
}

/// Whether the name under a key of a dictionary is `wanted`.
fn names(name: &Option<String>, wanted: &str) -> (same: bool)
    ensures
        same == (*name is Some && name->0@ == wanted@),
{
    match name {
        Some(n) => str_eq(n.as_str(), wanted),
        None => false,
    }
}

/// Says where the parts of each stream go.
pub fn plan_streams(streams: &[StreamInfo]) -> (plans: Vec<StreamPlan>)
    ensures
        plans@.len() == streams@.len(),
        forall|i: int| 0 <= i < plans@.len() ==> (#[trigger] plans@[i])@ == stream_plan(streams@, i),
{
    let mut plans: Vec<StreamPlan> = Vec::new();
    let mut scripts: usize = 0;
    let mut images: usize = 0;
    let mut i: usize = 0;
    proof {
        assert(streams@.take(0).len() == 0);
    }
    while i < streams.len()
        invariant
            i <= streams.len(),
            scripts <= i,
            images <= i,
            scripts == script_count(streams@.take(i as int)),
            images == image_count(streams@.take(i as int)),
            plans@.len() == i,
            forall|k: int| 0 <= k < i ==> (#[trigger] plans@[k])@ == stream_plan(streams@, k),
        decreases streams.len() - i,
    {
        proof {
            assert(streams@.take(i + 1).drop_last() =~= streams@.take(i as int));
            assert(streams@.take(i + 1).last() == streams@[i as int]);
        }
        let stream = &streams[i];
        let script = if names(&stream.kind, "JavaScript") {
            let mut path = String::from_str(OUTPUT_DIR);
            path.append("/js/script_");
            push_decimal(&mut path, scripts as u64);
            path.append(".js");
            scripts += 1;
            Some(path)
        } else {
            None
        };
        let image = if names(&stream.subtype, "Image") {
            let mut dictionary = String::from_str(OUTPUT_DIR);
            dictionary.append("/images/image_");
            push_decimal(&mut dictionary, images as u64);
            dictionary.append(".raw");
            let mut content = String::from_str(OUTPUT_DIR);
            content.append("/images/image_");
            push_decimal(&mut content, images as u64);
            content.append(".unknowext.png");
            images += 1;
            Some((dictionary, content))
        } else {
            None
        };
        plans.push(StreamPlan { script, image });
        i += 1;
    }
    plans
}

} // verus!
