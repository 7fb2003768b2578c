//! The containers that the container runtime lists.

use crate::decimal::{parse_number, parse_u32};
use crate::text::push_text;
use crate::text::text_view;
use crate::text::{
    chars_of, decoded, same_text, starts_with, substring, trim, trim_bounds, utf8_text,
};
use vstd::prelude::*;

verus! {

/// A value of JSON, as `serde_json` holds it.
#[verifier::external_type_specification]
#[verifier::external_body]
pub struct ExValue(serde_json::Value);

/// The value that `serde_json::from_str` reads from a text, or nothing where
/// it reads none.
pub uninterp spec fn parsed_json(text: Seq<char>) -> Option<serde_json::Value>;

/// The value that indexing a `serde_json::Value` with a key gives: the
/// member of that name where the value is an object that has one, and the
/// null value in any other case.
pub uninterp spec fn indexed(value: serde_json::Value, key: Seq<char>) -> serde_json::Value;

/// The text of a `serde_json::Value` that is a string, as `as_str` gives it.
pub uninterp spec fn text_of(value: serde_json::Value) -> Option<Seq<char>>;

/// The elements of a `serde_json::Value` that is an array, as `as_array`
/// gives them.
pub uninterp spec fn items_of(value: serde_json::Value) -> Option<Seq<serde_json::Value>>;

/// `serde_json::from_str` for a `Value`: the value that the text holds, and
/// nothing where the text is not one value of JSON. The same text gives the
/// same value.
#[verifier::external_body]
fn json_value(text: &str) -> (r: Option<serde_json::Value>)
    ensures
        r == parsed_json(text@),
{
    serde_json::from_str::<serde_json::Value>(text).ok()
}

/// Indexing a `serde_json::Value` with a text: it never fails, and gives the
/// null value where there is no such member.
#[verifier::external_body]
fn json_index<'a>(value: &'a serde_json::Value, key: &str) -> (r: &'a serde_json::Value)
    ensures
        *r == indexed(*value, key@),
{
    &value[key]
}

/// `serde_json::Value::as_str`: the text of a string, and nothing for any
/// other value.
#[verifier::external_body]
fn json_text<'a>(value: &'a serde_json::Value) -> (r: Option<&'a str>)
    ensures
        match r {
            Some(text) => text_of(*value) == Some(text@),
            None => text_of(*value) is None,
        },
{
    value.as_str()
}

/// `serde_json::Value::as_array`: the elements of an array, and nothing for
/// any other value.
#[verifier::external_body]
fn json_items<'a>(value: &'a serde_json::Value) -> (r: Option<&'a Vec<serde_json::Value>>)
    ensures
        match r {
            Some(items) => items_of(*value) == Some(items@),
            None => items_of(*value) is None,
        },
{
    value.as_array()
}

/// A container as the container runtime lists it.
#[derive(Debug, PartialEq, Eq)]
pub struct ContainerDescriptor {
    /// The id of the container, with the prefix of the runtime.
    pub id: String,
    /// The image that the container was made from.
    pub image_ref: String,
    /// The name of the container.
    pub name: String,
    /// The name of the pod that owns the container.
    pub pod_name: String,
    /// The namespace of that pod.
    pub pod_namespace: String,
}

/// A container with the process that it began with.
#[derive(Debug, PartialEq, Eq)]
pub struct Container {
    /// The id of the container, with the prefix of the runtime.
    pub id: String,
    /// The image that the container was made from.
    pub image_ref: String,
    /// The name of the container.
    pub name: String,
    /// The name of the pod that owns the container.
    pub pod_name: String,
    /// The namespace of that pod.
    pub pod_namespace: String,
    /// The root process of the container.
    pub pid: u32,
}

impl Clone for ContainerDescriptor {
    fn clone(&self) -> (out: Self)
        ensures
            out == *self,
    {
        ContainerDescriptor {
            id: self.id.clone(),
            image_ref: self.image_ref.clone(),
            name: self.name.clone(),
            pod_name: self.pod_name.clone(),
            pod_namespace: self.pod_namespace.clone(),
        }
    }
}

impl Clone for Container {
    fn clone(&self) -> (out: Self)
        ensures
            out == *self,
    {
        Container {
            id: self.id.clone(),
            image_ref: self.image_ref.clone(),
            name: self.name.clone(),
            pod_name: self.pod_name.clone(),
            pod_namespace: self.pod_namespace.clone(),
            pid: self.pid,
        }
    }
}

/// A listed container, as texts.
pub struct Listed {
    pub id: Seq<char>,
    pub image_ref: Seq<char>,
    pub name: Seq<char>,
    pub pod_name: Seq<char>,
    pub pod_namespace: Seq<char>,
}

impl View for ContainerDescriptor {
    type V = Listed;

    open spec fn view(&self) -> Listed {
        Listed {
            id: self.id@,
            image_ref: self.image_ref@,
            name: self.name@,
            pod_name: self.pod_name@,
            pod_namespace: self.pod_namespace@,
        }
    }
}

/// The views of a sequence of descriptors.
pub open spec fn listed_views(descriptors: Seq<ContainerDescriptor>) -> Seq<Listed> {
    descriptors.map_values(|d: ContainerDescriptor| d@)
}

/// The id of a container without the prefix of the runtime.
pub open spec fn bare_id(id: Seq<char>) -> Seq<char> {
    if "cri-o://"@.is_prefix_of(id) {
        id.skip("cri-o://"@.len() as int)
    } else {
        id
    }
}

/// The text of the member `key` of `value`.
pub open spec fn member_text(value: serde_json::Value, key: Seq<char>) -> Option<Seq<char>> {
    text_of(indexed(value, key))
}

/// The text of the label `name` of `value`.
pub open spec fn label_text(value: serde_json::Value, name: Seq<char>) -> Option<Seq<char>> {
    text_of(indexed(indexed(value, "labels"@), name))
}

/// The container that an element of the list describes: its id, to which
/// the prefix of the runtime is added, its image, and the names that its
/// labels give. Nothing where one of them is not a text.
pub open spec fn described(value: serde_json::Value) -> Option<Listed> {
    described_by(
        member_text(value, "id"@),
        member_text(value, "imageRef"@),
        label_text(value, "io.kubernetes.container.name"@),
        label_text(value, "io.kubernetes.pod.name"@),
        label_text(value, "io.kubernetes.pod.namespace"@),
    )
}

/// The containers that the first `n` of `items` describe, or nothing where
/// one of them describes none.
pub open spec fn described_all(items: Seq<serde_json::Value>, n: int) -> Option<Seq<Listed>>
    decreases n,
{
    if n <= 0 || n > items.len() {
        Some(Seq::empty())
    } else {
        match (described_all(items, n - 1), described(items[n - 1])) {
            (Some(before), Some(listed)) => Some(before.push(listed)),
            _ => None,
        }
    }
}

/// The elements of the member `containers` of the listing, which is JSON
/// in UTF-8.
pub open spec fn listed_items(listing: Seq<u8>) -> Option<Seq<serde_json::Value>> {
    match decoded(listing) {
        Some(text) => match parsed_json(text) {
            Some(document) => items_of(indexed(document, "containers"@)),
            None => None,
        },
        None => None,
    }
}

/// The containers of a listing, in its order. Nothing where the listing is
/// not a JSON object with an array `containers` whose elements all describe a
/// container.
pub open spec fn listed_containers(listing: Seq<u8>) -> Option<Seq<Listed>> {
    match listed_items(listing) {
        Some(items) => described_all(items, items.len() as int),
        None => None,
    }
}

/// The container with the id `wanted` among `items`, looked for from the
/// index `from` on: the first element whose id is `wanted`. Nothing where an
/// element before it has no id, where that element describes no container, or
/// where there is no such element.
pub open spec fn found_among(items: Seq<serde_json::Value>, wanted: Seq<char>, from: int) -> Option<
    Listed,
>
    decreases items.len() - from,
{
    if from < 0 || from >= items.len() {
        None
    } else {
        match member_text(items[from], "id"@) {
            Some(id) => if id == wanted {
                described(items[from])
            } else {
                found_among(items, wanted, from + 1)
            },
            None => None,
        }
    }
}

/// The container of a listing that has the id `container_id`, with or
/// without the prefix of the runtime.
pub open spec fn listed_container(listing: Seq<u8>, container_id: Seq<char>) -> Option<Listed> {
    match listed_items(listing) {
        Some(items) => found_among(items, bare_id(container_id), 0),
        None => None,
    }
}

/// The view of a descriptor that may be missing.
pub open spec fn listed_view(descriptor: Option<ContainerDescriptor>) -> Option<Listed> {
    match descriptor {
        Some(d) => Some(d@),
        None => None,
    }
}

/// The id of a container without the prefix of the runtime.
pub fn container_key(container_id: &str) -> (key: String)
    ensures
        key@ == bare_id(container_id@),
{
    let chars = chars_of(container_id);
    let prefix = chars_of("cri-o://");
    if starts_with(&chars, &prefix) {
        let key = substring(&chars, prefix.len(), chars.len());
        assert(chars@.subrange(prefix@.len() as int, chars@.len() as int) =~= chars@.skip(
            prefix@.len() as int,
        ));
        key
    } else {
        container_id.to_owned()
    }
}

/// The text of a member of `value`.
fn member(value: &serde_json::Value, key: &str) -> (r: Option<String>)
    ensures
        text_view(r) == member_text(*value, key@),
{
    match json_text(json_index(value, key)) {
        Some(text) => Some(text.to_owned()),
        None => None,
    }
}

/// The text of a label of `value`.
fn label(value: &serde_json::Value, name: &str) -> (r: Option<String>)
    ensures
        text_view(r) == label_text(*value, name@),
{
    match json_text(json_index(json_index(value, "labels"), name)) {
        Some(text) => Some(text.to_owned()),
        None => None,
    }
}

/// The container that is made of what an element of the list holds.
pub open spec fn described_by(
    id: Option<Seq<char>>,
    image_ref: Option<Seq<char>>,
    name: Option<Seq<char>>,
    pod_name: Option<Seq<char>>,
    pod_namespace: Option<Seq<char>>,
) -> Option<Listed> {
    match (id, image_ref, name, pod_name, pod_namespace) {
        (Some(id), Some(image_ref), Some(name), Some(pod_name), Some(pod_namespace)) => Some(
            Listed { id: "cri-o://"@ + id, image_ref, name, pod_name, pod_namespace },
        ),
        _ => None,
    }
}

/// The descriptor of the container whose id, without prefix, is `id`, and
/// whose image and names are the other texts. The id gets the prefix of the
/// runtime. There is no descriptor where one of the texts is missing.
pub fn descriptor_of(
    id: Option<String>,
    image_ref: Option<String>,
    name: Option<String>,
    pod_name: Option<String>,
    pod_namespace: Option<String>,
) -> (r: Option<ContainerDescriptor>)
    ensures
        listed_view(r) == described_by(
            text_view(id),
            text_view(image_ref),
            text_view(name),
            text_view(pod_name),
            text_view(pod_namespace),
        ),
{
    match (id, image_ref, name, pod_name, pod_namespace) {
        (Some(id), Some(image_ref), Some(name), Some(pod_name), Some(pod_namespace)) => {
            let mut full = "cri-o://".to_owned();
            push_text(&mut full, id.as_str());
            Some(ContainerDescriptor { id: full, image_ref, name, pod_name, pod_namespace })
        },
        _ => None,
    }
}

/// Whether the container with the id `id`, without prefix, is the one that
/// `container_id` names, with or without the prefix of the runtime.
pub fn is_container(id: &str, container_id: &str) -> (r: bool)
    ensures
        r == (id@ == bare_id(container_id@)),
{
    let wanted = container_key(container_id);
    same_text(id, wanted.as_str())
}

/// The container that an element of the list describes.
fn describe(value: &serde_json::Value) -> (r: Option<ContainerDescriptor>)
    ensures
        listed_view(r) == described(*value),
{
    descriptor_of(
        member(value, "id"),
        member(value, "imageRef"),
        label(value, "io.kubernetes.container.name"),
        label(value, "io.kubernetes.pod.name"),
        label(value, "io.kubernetes.pod.namespace"),
    )
}

/// The document that the listing holds.
fn document_of(listing: &[u8]) -> (r: Option<serde_json::Value>)
    ensures
        r == match decoded(listing@) {
            Some(text) => parsed_json(text),
            None => None,
        },
{
    match utf8_text(listing) {
        Some(text) => json_value(text),
        None => None,
    }
}

/// The elements of the member `containers` of the listing.
fn items_of_listing(document: &serde_json::Value) -> (r: Option<&Vec<serde_json::Value>>)
    ensures
        match r {
            Some(items) => items_of(indexed(*document, "containers"@)) == Some(items@),
            None => items_of(indexed(*document, "containers"@)) is None,
        },
{
    json_items(json_index(document, "containers"))
}

/// The containers that the container runtime lists in `listing`, which is
/// its answer: JSON in UTF-8.
pub fn get_containers(listing: &[u8]) -> (r: Option<Vec<ContainerDescriptor>>)
    ensures
        match r {
            Some(containers) => listed_containers(listing@) == Some(listed_views(containers@)),
            None => listed_containers(listing@) is None,
        },
{
    let document = match document_of(listing) {
        Some(document) => document,
        None => {
            return None;
        },
    };
    let items = match items_of_listing(&document) {
        Some(items) => items,
        None => {
            return None;
        },
    };
    let mut out: Vec<ContainerDescriptor> = Vec::new();
    let mut i: usize = 0;
    assert(listed_views(out@) =~= Seq::<Listed>::empty());
    while i < items.len()
        invariant
            i <= items@.len(),
            listed_items(listing@) == Some(items@),
            described_all(items@, i as int) == Some(listed_views(out@)),
        decreases items.len() - i,
    {
        match describe(&items[i]) {
            Some(descriptor) => {
                let ghost before = listed_views(out@);
                out.push(descriptor);
                assert(listed_views(out@) =~= before.push(descriptor@));
            },
            None => {
                proof {
                    lemma_described_all_fails(items@, i + 1, items@.len() as int);
                }
                return None;
            },
        }
        i += 1;
    }
    Some(out)
}

/// Where the first `n` elements do not all describe a container, no more of
/// them do.
proof fn lemma_described_all_fails(items: Seq<serde_json::Value>, n: int, m: int)
    requires
        0 < n <= m <= items.len(),
        described_all(items, n) is None,
    ensures
        described_all(items, m) is None,
    decreases m - n,
{
    if n < m {
        lemma_described_all_fails(items, n, m - 1);
    }
}

/// The container with the id `container_id`, with or without the prefix of
/// the runtime, in `listing`, which is the answer of the container runtime:
/// JSON in UTF-8. Nothing where the listing holds no such container.
pub fn get_container(listing: &[u8], container_id: &str) -> (r: Option<ContainerDescriptor>)
    ensures
        listed_view(r) == listed_container(listing@, container_id@),
{
    let document = match document_of(listing) {
        Some(document) => document,
        None => {
            return None;
        },
    };
    let items = match items_of_listing(&document) {
        Some(items) => items,
        None => {
            return None;
        },
    };
    let ghost wanted = bare_id(container_id@);
    let mut i: usize = 0;
    while i < items.len()
        invariant
            i <= items@.len(),
            listed_items(listing@) == Some(items@),
            wanted == bare_id(container_id@),
            found_among(items@, wanted, i as int) == found_among(items@, wanted, 0),
        decreases items.len() - i,
    {
        match member(&items[i], "id") {
            Some(id) => {
                if is_container(id.as_str(), container_id) {
                    return describe(&items[i]);
                }
            },
            None => {
                return None;
            },
        }
        i += 1;
    }
    None
}

/// The root process that an answer names: the number that the text of the
/// answer holds, white space around it apart.
pub open spec fn root_pid(answer: Seq<u8>) -> Option<u32> {
    match decoded(answer) {
        Some(text) => parse_u32(trim(text)),
        None => None,
    }
}

/// The process id that the container runtime answers when it is asked for
/// the root process of a container. Nothing where the answer is not UTF-8 text
/// that holds one number.
pub fn get_root_pid(answer: &[u8]) -> (r: Option<u32>)
    ensures
        r == root_pid(answer@),
{
    match utf8_text(answer) {
        Some(text) => {
            let chars = chars_of(text);
            let (a, b) = trim_bounds(&chars, 0, chars.len());
            assert(chars@.subrange(0, chars@.len() as int) =~= chars@);
            parse_number(&chars, a, b)
        },
        None => None,
    }
}

impl ContainerDescriptor {
    /// The container of this descriptor whose root process is `pid`.
    pub fn with_root_pid(self, pid: u32) -> (container: Container)
        ensures
            container.id == self.id,
            container.image_ref == self.image_ref,
            container.name == self.name,
            container.pod_name == self.pod_name,
            container.pod_namespace == self.pod_namespace,
            container.pid == pid,
    {
        Container {
            id: self.id,
            image_ref: self.image_ref,
            name: self.name,
            pod_name: self.pod_name,
            pod_namespace: self.pod_namespace,
            pid,
        }
    }
}

} // verus!
