//! From an unpacked EPUB's metadata to its reading order: where the package
//! document lies, which manifest entries the spine names and in what order,
//! and the table of contents printed from them.

use vstd::prelude::*;
use vstd::string::*;
use crate::node::{
    Node,
    NodeView,
    node_views,
    first_named,
    first_with_id,
    find_named,
    find_by_id,
    lemma_children_views,
};
use crate::text::{same_text, replaced, replace_all};

verus! {

/// What can go wrong between an `.epub` file and its reading order.
#[derive(Debug, PartialEq, Eq, Structural, Clone, Copy)]
pub enum MyError {
    FileNotFound,
    FailedToCreateFolder,
    FolderAlreadyExists,
    FailedToCreateZip,
    FailedToRead,
    NotEpub,
    FailedReadingOrder,
}

/// Where the book called `title` is expected before it is unpacked.
pub open spec fn epub_location(title: Seq<char>) -> Seq<char> {
    "src\\new_files"@ + "\\"@ + title + ".epub"@
}

/// The folder into which the book called `title` is unpacked.
pub open spec fn processed_location(title: Seq<char>) -> Seq<char> {
    "src\\processed_files"@ + "\\"@ + title
}

/// The path of the `.epub` file for `title`.
pub fn epub_path(title: &String) -> (path: String)
    ensures
        path@ == epub_location(title@),
{
    let mut path = String::from_str("src\\new_files");
    path.append("\\");
    path.append(title.as_str());
    path.append(".epub");
    path
}

/// The path of the folder that receives the unpacked files of `title`.
pub fn processed_path(title: &String) -> (path: String)
    ensures
        path@ == processed_location(title@),
{
    let mut path = String::from_str("src\\processed_files");
    path.append("\\");
    path.append(title.as_str());
    path
}

/// Decides whether the book `title` can be unpacked, given what the caller
/// found on disk: whether `epub_path(title)` is a file and whether
/// `processed_path(title)` is already a folder. On success the result is the
/// folder that the caller has to create.
pub fn read_epub(title: &String, epub_is_file: bool, folder_is_dir: bool) -> (outcome: Result<
    String,
    MyError,
>)
    ensures
        !epub_is_file ==> outcome == Err::<String, MyError>(MyError::FileNotFound),
        epub_is_file && folder_is_dir ==> outcome == Err::<String, MyError>(
            MyError::FolderAlreadyExists,
        ),
        epub_is_file && !folder_is_dir ==> outcome.is_ok() && outcome.unwrap()@
            == processed_location(title@),
{
    if !epub_is_file {
        return Err(MyError::FileNotFound);
    }
    if folder_is_dir {
        return Err(MyError::FolderAlreadyExists);
    }
    Ok(processed_path(title))
}

/// The package document's path that a container descriptor names: the
/// `full-path` of its first `rootfile`, where both exist.
pub open spec fn container_location(nodes: Seq<NodeView>) -> Option<Seq<char>> {
    match first_named(nodes, "rootfile"@) {
        Some(rootfile) => rootfile.attribute("full-path"@),
        None => None,
    }
}

/// Reads the package document's path off the nodes of a container
/// descriptor. Only the first `rootfile` is looked at.
pub fn get_container_location(all_nodes: &Vec<Node>) -> (location: Result<String, MyError>)
    ensures
        match location {
            Ok(path) => container_location(node_views(all_nodes@)) == Some(path@),
            Err(e) => e == MyError::FileNotFound && container_location(
                node_views(all_nodes@),
            ).is_none(),
        },
{
    match find_named(all_nodes, "rootfile") {
        Some(rootfile) => match rootfile.get_attribute("full-path") {
            Some(path) => Ok(path.clone()),
            None => Err(MyError::FileNotFound),
        },
        None => Err(MyError::FileNotFound),
    }
}

/// Where the container descriptor lies in a book unpacked under `root`.
pub open spec fn container_descriptor_location(root: Seq<char>) -> Seq<char> {
    root + "\\META-INF\\container.xml"@
}

/// The path of the container descriptor of a book unpacked under
/// `root_path`.
pub fn container_path(root_path: &String) -> (path: String)
    ensures
        path@ == container_descriptor_location(root_path@),
{
    let mut path = root_path.clone();
    path.append("\\META-INF\\container.xml");
    path
}

/// Finds the package document, given what came of reading and parsing the
/// container descriptor: nothing where it could not be read, else its nodes.
pub fn find_container(descriptor: Option<&Vec<Node>>) -> (location: Result<String, MyError>)
    ensures
        match descriptor {
            None => location == Err::<String, MyError>(MyError::FailedToRead),
            Some(nodes) => match location {
                Ok(path) => container_location(node_views(nodes@)) == Some(path@),
                Err(e) => e == MyError::FileNotFound && container_location(
                    node_views(nodes@),
                ).is_none(),
            },
        },
{
    match descriptor {
        Some(nodes) => get_container_location(nodes),
        None => Err(MyError::FailedToRead),
    }
}

/// The identity of the first manifest entry whose `id` attribute is `idref`.
pub open spec fn manifest_match(manifest: Seq<NodeView>, idref: Seq<char>) -> Option<usize>
    decreases manifest.len(),
{
    if manifest.len() == 0 {
        None
    } else if manifest[0].attribute("id"@) == Some(idref) {
        Some(manifest[0].id)
    } else {
        manifest_match(manifest.skip(1), idref)
    }
}

/// The manifest entry that one spine entry stands for, if there is one: an
/// entry without `idref`, or whose `idref` no manifest entry carries, has none.
pub open spec fn resolve(entry: NodeView, manifest: Seq<NodeView>) -> Option<usize> {
    match entry.attribute("idref"@) {
        Some(idref) => manifest_match(manifest, idref),
        None => None,
    }
}

/// The reading order: the spine's entries in document order, each replaced
/// by the manifest entry it resolves to, the unresolved ones left out.
pub open spec fn reading_order(spine: Seq<NodeView>, manifest: Seq<NodeView>) -> Seq<usize>
    decreases spine.len(),
{
    if spine.len() == 0 {
        Seq::empty()
    } else {
        let before = reading_order(spine.drop_last(), manifest);
        match resolve(spine.last(), manifest) {
            Some(id) => before.push(id),
            None => before,
        }
    }
}

/// How many entries of the spine resolve to no manifest entry.
pub open spec fn dangling(spine: Seq<NodeView>, manifest: Seq<NodeView>) -> nat
    decreases spine.len(),
{
    if spine.len() == 0 {
        0
    } else {
        let before = dangling(spine.drop_last(), manifest);
        match resolve(spine.last(), manifest) {
            Some(_) => before,
            None => before + 1,
        }
    }
}

/// Scans the manifest for the first entry whose `id` is `idref`.
pub fn find_manifest_entry(manifest_nodes: &Vec<Node>, idref: &str) -> (found: Option<usize>)
    ensures
        found == manifest_match(node_views(manifest_nodes@), idref@),
{
    let ghost all = node_views(manifest_nodes@);
    let mut i: usize = 0;
    assert(all.skip(0) =~= all);
    while i < manifest_nodes.len()
        invariant
            i <= manifest_nodes@.len(),
            all == node_views(manifest_nodes@),
            manifest_match(all, idref@) == manifest_match(all.skip(i as int), idref@),
        decreases manifest_nodes@.len() - i,
    {
        let node = &manifest_nodes[i];
        proof {
            assert(all.skip(i as int)[0] == manifest_nodes@[i as int]@);
            assert(all.skip(i as int).skip(1) =~= all.skip(i + 1));
        }
        match node.get_attribute("id") {
            Some(id) => {
                if same_text(id.as_str(), idref) {
                    return Some(node.id);
                }
            },
            None => {},
        }
        i += 1;
    }
    None
}

/// Resolves the spine against the manifest. The result follows the spine's
/// order; a spine entry that names no manifest entry is skipped, and of two
/// manifest entries with one `id` the first is taken.
pub fn get_reading_order(spine_nodes: &Vec<Node>, manifest_nodes: &Vec<Node>) -> (order: Vec<
    usize,
>)
    ensures
        order@ == reading_order(node_views(spine_nodes@), node_views(manifest_nodes@)),
{
    let ghost spine = node_views(spine_nodes@);
    let ghost manifest = node_views(manifest_nodes@);
    let mut order: Vec<usize> = Vec::new();
    let mut i: usize = 0;
    while i < spine_nodes.len()
        invariant
            i <= spine_nodes@.len(),
            spine == node_views(spine_nodes@),
            manifest == node_views(manifest_nodes@),
            order@ == reading_order(spine.subrange(0, i as int), manifest),
        decreases spine_nodes@.len() - i,
    {
        proof {
            assert(spine.subrange(0, i + 1).drop_last() =~= spine.subrange(0, i as int));
            assert(spine.subrange(0, i + 1).last() == spine_nodes@[i as int]@);
        }
        match spine_nodes[i].get_attribute("idref") {
            Some(idref) => match find_manifest_entry(manifest_nodes, idref.as_str()) {
                Some(id) => order.push(id),
                None => {},
            },
            None => {},
        }
        i += 1;
    }
    assert(spine.subrange(0, i as int) =~= spine);
    order
}

/// The reading order of a package document, given all its nodes: the
/// children of its first `spine` resolved against those of its first
/// `manifest`.
pub fn spine_to_manifest(all_nodes: &Vec<Node>) -> (order: Vec<usize>)
    requires
        first_named(node_views(all_nodes@), "spine"@).is_some(),
        first_named(node_views(all_nodes@), "manifest"@).is_some(),
    ensures
        order@ == reading_order(
            first_named(node_views(all_nodes@), "spine"@).unwrap().children,
            first_named(node_views(all_nodes@), "manifest"@).unwrap().children,
        ),
{
    let spine = find_named(all_nodes, "spine").unwrap();
    let manifest = find_named(all_nodes, "manifest").unwrap();
    proof {
        lemma_children_views(*spine);
        lemma_children_views(*manifest);
    }
    get_reading_order(&spine.children, &manifest.children)
}

/// The reading order of a package document, where it has one: a document
/// without a `spine` or without a `manifest` has none.
pub fn resolve_reading_order(all_nodes: &Vec<Node>) -> (outcome: Result<Vec<usize>, MyError>)
    ensures
        match outcome {
            Ok(order) => {
                &&& first_named(node_views(all_nodes@), "spine"@).is_some()
                &&& first_named(node_views(all_nodes@), "manifest"@).is_some()
                &&& order@ == reading_order(
                    first_named(node_views(all_nodes@), "spine"@).unwrap().children,
                    first_named(node_views(all_nodes@), "manifest"@).unwrap().children,
                )
            },
            Err(e) => e == MyError::FailedReadingOrder && (first_named(
                node_views(all_nodes@),
                "spine"@,
            ).is_none() || first_named(node_views(all_nodes@), "manifest"@).is_none()),
        },
{
    if find_named(all_nodes, "spine").is_some() && find_named(all_nodes, "manifest").is_some() {
        Ok(spine_to_manifest(all_nodes))
    } else {
        Err(MyError::FailedReadingOrder)
    }
}

/// The title shown for a manifest entry, derived from its `id` attribute:
/// hyphens become spaces and the `.xhtml` extension is dropped.
pub open spec fn title_of(id_attr: Seq<char>) -> Seq<char> {
    replaced(replaced(id_attr, "-"@, " "@), ".xhtml"@, ""@)
}

/// Derives the display title of a manifest entry from its `id` attribute.
pub fn derive_title(id_attr: &str) -> (title: String)
    ensures
        title@ == title_of(id_attr@),
{
    let spaced = replace_all(id_attr, "-", " ");
    replace_all(spaced.as_str(), ".xhtml", "")
}

/// Whether `id` can be listed: a node of `nodes` has that identity, and the
/// first such node carries an `id` attribute to take the title from.
pub open spec fn has_title(nodes: Seq<NodeView>, id: usize) -> bool {
    match first_with_id(nodes, id) {
        Some(node) => node.attribute("id"@).is_some(),
        None => false,
    }
}

/// Whether every identity in `ordered` can be listed.
pub open spec fn all_have_titles(ordered: Seq<usize>, nodes: Seq<NodeView>) -> bool {
    forall|i: int| 0 <= i < ordered.len() ==> has_title(nodes, #[trigger] ordered[i])
}

/// The line that the table of contents shows for `id`.
pub open spec fn entry_line(nodes: Seq<NodeView>, id: usize) -> Seq<char> {
    title_of(first_with_id(nodes, id).unwrap().attribute("id"@).unwrap()) + "\n"@
}

/// The table of contents: a banner, then one line per identity, in order.
pub open spec fn table_of_contents(ordered: Seq<usize>, nodes: Seq<NodeView>) -> Seq<char>
    decreases ordered.len(),
{
    if ordered.len() == 0 {
        "===============Table Of Contents===============\n"@
    } else {
        table_of_contents(ordered.drop_last(), nodes) + entry_line(nodes, ordered.last())
    }
}

/// Tests whether `format_table_contents` can list every identity in
/// `ordered_files`.
pub fn can_format_table(ordered_files: &Vec<usize>, all_nodes: &Vec<Node>) -> (ok: bool)
    ensures
        ok == all_have_titles(ordered_files@, node_views(all_nodes@)),
{
    let mut i: usize = 0;
    while i < ordered_files.len()
        invariant
            i <= ordered_files@.len(),
            forall|j: int|
                0 <= j < i ==> has_title(node_views(all_nodes@), #[trigger] ordered_files@[j]),
        decreases ordered_files@.len() - i,
    {
        let listed = match find_by_id(all_nodes, ordered_files[i]) {
            Some(node) => node.get_attribute("id").is_some(),
            None => false,
        };
        if !listed {
            assert(!has_title(node_views(all_nodes@), ordered_files@[i as int]));
            return false;
        }
        i += 1;
    }
    true
}

/// Lists the reading order for a reader: under a banner, the title of each
/// resolved entry on a line of its own.
pub fn format_table_contents(ordered_files: Vec<usize>, all_nodes: &Vec<Node>) -> (table: String)
    requires
        all_have_titles(ordered_files@, node_views(all_nodes@)),
    ensures
        table@ == table_of_contents(ordered_files@, node_views(all_nodes@)),
{
    let mut table = String::from_str("===============Table Of Contents===============\n");
    let mut i: usize = 0;
    while i < ordered_files.len()
        invariant
            i <= ordered_files@.len(),
            all_have_titles(ordered_files@, node_views(all_nodes@)),
            table@ == table_of_contents(
                ordered_files@.subrange(0, i as int),
                node_views(all_nodes@),
            ),
        decreases ordered_files@.len() - i,
    {
        proof {
            assert(ordered_files@.subrange(0, i + 1).drop_last() =~= ordered_files@.subrange(
                0,
                i as int,
            ));
            assert(has_title(node_views(all_nodes@), ordered_files@[i as int]));
        }
        let ghost before = table@;
        let node = find_by_id(all_nodes, ordered_files[i]).unwrap();
        let id_attr = node.get_attribute("id").unwrap();
        let title = derive_title(id_attr.as_str());
        table.append(title.as_str());
        table.append("\n");
        assert(table@ =~= before + (title@ + "\n"@));
        i += 1;
    }
    assert(ordered_files@.subrange(0, i as int) =~= ordered_files@);
    table
}

/// Resolving a spine piece by piece gives the pieces' reading orders one
/// after the other.
pub proof fn lemma_reading_order_concat(first: Seq<NodeView>, second: Seq<NodeView>, manifest: Seq<NodeView>)
    ensures
        reading_order(first + second, manifest) == reading_order(first, manifest) + reading_order(
            second,
            manifest,
        ),
    decreases second.len(),
{
    if second.len() == 0 {
        assert(first + second =~= first);
        assert(reading_order(first, manifest) + reading_order(second, manifest) =~= reading_order(
            first,
            manifest,
        ));
    } else {
        lemma_reading_order_concat(first, second.drop_last(), manifest);
        assert((first + second).drop_last() =~= first + second.drop_last());
        assert((first + second).last() == second.last());
        let left = reading_order(first, manifest);
        let right = reading_order(second.drop_last(), manifest);
        match resolve(second.last(), manifest) {
            Some(id) => {
                assert((left + right).push(id) =~= left + right.push(id));
            },
            None => {},
        }
    }
}

/// The reading order is shorter than the spine by exactly the number of
/// spine entries that resolve to no manifest entry.
pub proof fn lemma_reading_order_length(spine: Seq<NodeView>, manifest: Seq<NodeView>)
    ensures
        reading_order(spine, manifest).len() + dangling(spine, manifest) == spine.len(),
    decreases spine.len(),
{
    if spine.len() > 0 {
        lemma_reading_order_length(spine.drop_last(), manifest);
    }
}

/// A spine entry that resolves to no manifest entry leaves no trace: the
/// reading order is what it would be without that entry.
pub proof fn lemma_dangling_entry_is_omitted(
    before: Seq<NodeView>,
    entry: NodeView,
    after: Seq<NodeView>,
    manifest: Seq<NodeView>,
)
    requires
        resolve(entry, manifest).is_none(),
    ensures
        reading_order(before.push(entry) + after, manifest) == reading_order(
            before + after,
            manifest,
        ),
{
    lemma_reading_order_concat(before.push(entry), after, manifest);
    lemma_reading_order_concat(before, after, manifest);
    assert(before.push(entry).drop_last() =~= before);
}

/// Where every spine entry resolves, the reading order has one identity per
/// spine entry, at the same position: it follows the spine, whatever the
/// order of the manifest.
pub proof fn lemma_reading_order_follows_spine(spine: Seq<NodeView>, manifest: Seq<NodeView>)
    requires
        forall|i: int| 0 <= i < spine.len() ==> (#[trigger] resolve(spine[i], manifest)).is_some(),
    ensures
        reading_order(spine, manifest).len() == spine.len(),
        forall|i: int|
            0 <= i < spine.len() ==> #[trigger] reading_order(spine, manifest)[i] == resolve(
                spine[i],
                manifest,
            ).unwrap(),
    decreases spine.len(),
{
    if spine.len() > 0 {
        let front = spine.drop_last();
        assert forall|i: int| 0 <= i < front.len() implies (#[trigger] resolve(
            front[i],
            manifest,
        )).is_some() by {
            assert(front[i] == spine[i]);
        }
        lemma_reading_order_follows_spine(front, manifest);
        assert(resolve(spine[spine.len() - 1], manifest).is_some());
        assert forall|i: int| 0 <= i < spine.len() implies #[trigger] reading_order(
            spine,
            manifest,
        )[i] == resolve(spine[i], manifest).unwrap() by {
            if i < front.len() {
                assert(front[i] == spine[i]);
                assert(reading_order(front, manifest)[i] == resolve(front[i], manifest).unwrap());
            }
        }
    }
}

/// Whether some entry of `manifest` has the identity `id` and carries an
/// `id` attribute.
pub open spec fn is_titled_entry(manifest: Seq<NodeView>, id: usize) -> bool {
    exists|k: int|
        0 <= k < manifest.len() && (#[trigger] manifest[k]).id == id && manifest[k].attribute(
            "id"@,
        ).is_some()
}

/// What the manifest scan finds is an entry of the manifest that carries
/// the `id` asked for.
pub proof fn lemma_manifest_match_is_an_entry(manifest: Seq<NodeView>, idref: Seq<char>)
    requires
        manifest_match(manifest, idref).is_some(),
    ensures
        exists|k: int|
            0 <= k < manifest.len() && (#[trigger] manifest[k]).id == manifest_match(
                manifest,
                idref,
            ).unwrap() && manifest[k].attribute("id"@) == Some(idref),
    decreases manifest.len(),
{
    if manifest[0].attribute("id"@) == Some(idref) {
        assert(manifest[0].id == manifest_match(manifest, idref).unwrap());
    } else {
        let rest = manifest.skip(1);
        lemma_manifest_match_is_an_entry(rest, idref);
        let k = choose|k: int|
            0 <= k < rest.len() && (#[trigger] rest[k]).id == manifest_match(rest, idref).unwrap()
                && rest[k].attribute("id"@) == Some(idref);
        assert(manifest[k + 1] == rest[k]);
    }
}

/// Every identity in the reading order belongs to a manifest entry that
/// carries an `id` attribute.
pub proof fn lemma_reading_order_is_from_manifest(spine: Seq<NodeView>, manifest: Seq<NodeView>)
    ensures
        forall|i: int|
            0 <= i < reading_order(spine, manifest).len() ==> is_titled_entry(
                manifest,
                #[trigger] reading_order(spine, manifest)[i],
            ),
    decreases spine.len(),
{
    if spine.len() > 0 {
        let before = reading_order(spine.drop_last(), manifest);
        let order = reading_order(spine, manifest);
        lemma_reading_order_is_from_manifest(spine.drop_last(), manifest);
        match spine.last().attribute("idref"@) {
            Some(idref) => {
                if manifest_match(manifest, idref).is_some() {
                    lemma_manifest_match_is_an_entry(manifest, idref);
                    let k = choose|k: int|
                        0 <= k < manifest.len() && (#[trigger] manifest[k]).id == manifest_match(
                            manifest,
                            idref,
                        ).unwrap() && manifest[k].attribute("id"@) == Some(idref);
                    assert(is_titled_entry(manifest, manifest[k].id));
                }
            },
            None => {},
        }
        assert forall|i: int| 0 <= i < order.len() implies is_titled_entry(
            manifest,
            #[trigger] order[i],
        ) by {
            if i < before.len() {
                assert(order[i] == before[i]);
                assert(is_titled_entry(manifest, before[i]));
            }
        }
    }
}

/// The resolver and the formatter agree: where the node list can list every
/// manifest entry that carries an `id` attribute, it can list the whole
/// reading order, whatever the spine.
pub proof fn lemma_reading_order_can_be_listed(
    spine: Seq<NodeView>,
    manifest: Seq<NodeView>,
    all_nodes: Seq<NodeView>,
)
    requires
        forall|k: int|
            0 <= k < manifest.len() && (#[trigger] manifest[k]).attribute("id"@).is_some()
                ==> has_title(all_nodes, manifest[k].id),
    ensures
        all_have_titles(reading_order(spine, manifest), all_nodes),
{
    lemma_reading_order_is_from_manifest(spine, manifest);
    let order = reading_order(spine, manifest);
    assert forall|i: int| 0 <= i < order.len() implies has_title(all_nodes, #[trigger] order[i]) by {
        assert(is_titled_entry(manifest, order[i]));
        let k = choose|k: int|
            0 <= k < manifest.len() && (#[trigger] manifest[k]).id == order[i]
                && manifest[k].attribute("id"@).is_some();
        assert(has_title(all_nodes, manifest[k].id));
    }
}

} // verus!
