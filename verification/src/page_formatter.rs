//! The chapter renderer: a depth-first walk over one chapter's node tree
//! that collects styled fragments, and the session that holds them.

use vstd::prelude::*;
use vstd::string::*;
use crate::node::{Node, NodeView, node_views, text_view, lemma_children_views};
use crate::text::same_text;
use crate::style::{
    Style,
    StyledText,
    NodeKind,
    kind_of,
    classify,
    text_style,
    structural_style,
    apply_text_node,
    apply_structural_node,
};
use crate::paint::{views, is_painted, paint_onto, paint_all, lemma_painted_concat};

verus! {

/// What can go wrong while a chapter is read and laid out.
#[derive(Debug, PartialEq, Eq, Structural, Clone, Copy)]
pub enum ErrorTextFormating {
    FailedToReadChapter,
    FailedToReadLine,
    NoTitleFound,
}

/// The tags that mark formatted content, as a list.
pub const FORMATTING_NODES: [&'static str; 23] = [
    "p", "br", "span", "h1", "h2", "h3", "h4", "h5", "h6", "strong", "b", "em", "i", "u", "small",
    "mark", "del", "ins", "sub", "sup", "blockquote", "q", "pre",
];

/// Whether `tag` is one of the formatting tags.
pub open spec fn is_formatting_tag(tag: Seq<char>) -> bool {
    exists|i: int| 0 <= i < FORMATTING_NODES@.len() && (#[trigger] FORMATTING_NODES@[i])@ == tag
}

/// The identities of the nodes of `nodes` that carry a formatting tag, in
/// the order of `nodes`.
pub open spec fn content_nodes(nodes: Seq<NodeView>) -> Seq<usize>
    decreases nodes.len(),
{
    if nodes.len() == 0 {
        Seq::empty()
    } else if is_formatting_tag(nodes.last().name) {
        content_nodes(nodes.drop_last()).push(nodes.last().id)
    } else {
        content_nodes(nodes.drop_last())
    }
}

/// What a node contributes by itself, before its children: its layout, where
/// its tag is block-level.
pub open spec fn own_layout(node: NodeView, width: nat) -> Seq<(Seq<char>, Style)> {
    match kind_of(node.name) {
        NodeKind::Block => seq![structural_style(node.text, node.name, width)],
        _ => Seq::empty(),
    }
}

/// What the child at `position` contributes as bare text. A child tagged
/// `content` is styled by its own tag and text, unless it is the last child:
/// then the parent's text is styled, by the parent's tag.
pub open spec fn child_text(node: NodeView, position: int) -> Seq<(Seq<char>, Style)> {
    let child = node.children[position];
    if child.name == "content"@ {
        if position + 1 == node.children.len() {
            seq![text_style(node.text, node.name)]
        } else {
            seq![text_style(child.text, child.name)]
        }
    } else {
        Seq::empty()
    }
}

/// The fragments of `node` and of its first `upto` children, depth first.
pub open spec fn rendered_upto(node: NodeView, upto: nat, width: nat) -> Seq<(Seq<char>, Style)>
    decreases node, upto,
{
    if upto == 0 {
        own_layout(node, width)
    } else if upto > node.children.len() {
        Seq::empty()
    } else {
        let child = node.children[upto - 1];
        rendered_upto(node, (upto - 1) as nat, width) + child_text(node, upto - 1) + rendered_upto(
            child,
            child.children.len(),
            width,
        )
    }
}

/// The fragments of the whole tree under `node`, in document order.
pub open spec fn rendered(node: NodeView, width: nat) -> Seq<(Seq<char>, Style)> {
    rendered_upto(node, node.children.len(), width)
}

/// The page of a chapter: the fragments of its first node's tree.
pub open spec fn page(nodes: Option<Seq<NodeView>>, width: nat) -> Seq<(Seq<char>, Style)> {
    match nodes {
        Some(list) => if list.len() > 0 {
            rendered(list[0], width)
        } else {
            Seq::empty()
        },
        None => Seq::empty(),
    }
}

/// A copy of an optional text.
pub fn clone_text(text: &Option<String>) -> (copy: Option<String>)
    ensures
        text_view(copy) == text_view(*text),
{
    match text {
        Some(t) => Some(t.clone()),
        None => None,
    }
}

/// Walks the tree under `node` depth first and appends its fragments to
/// `out`. No node is visited twice.
pub fn render_into(node: &Node, width: usize, out: &mut Vec<StyledText>)
    ensures
        views(final(out)@) == views(old(out)@) + rendered(node@, width as nat),
    decreases node,
{
    let ghost before = views(out@);
    proof {
        lemma_children_views(*node);
    }
    match classify(node.name.as_str()) {
        NodeKind::Block => {
            let layout = apply_structural_node(clone_text(&node.text), node.name.as_str(), width);
            proof {
                assert(views(out@.push(layout)) =~= before + own_layout(node@, width as nat));
            }
            out.push(layout);
        },
        _ => {
            assert(before =~= before + own_layout(node@, width as nat));
        },
    }
    let count: usize = node.children.len();
    let mut i: usize = 0;
    while i < count
        invariant
            i <= count,
            count == node.children@.len(),
            views(out@) == before + rendered_upto(node@, i as nat, width as nat),
        decreases count - i,
    {
        let child = &node.children[i];
        let ghost so_far = views(out@);
        assert(node@.children[i as int] == child@);
        if same_text(child.name.as_str(), "content") {
            let styled = if i + 1 == count {
                apply_text_node(clone_text(&node.text), node.name.as_str())
            } else {
                apply_text_node(clone_text(&child.text), child.name.as_str())
            };
            proof {
                assert(views(out@.push(styled)) =~= so_far + child_text(node@, i as int));
            }
            out.push(styled);
        } else {
            assert(so_far =~= so_far + child_text(node@, i as int));
        }
        render_into(child, width, out);
        proof {
            assert(views(out@) =~= before + rendered_upto(node@, (i + 1) as nat, width as nat));
        }
        i += 1;
    }
}

/// The fragments of the tree under `node` for a viewport `width` wide.
pub fn render(node: &Node, width: usize) -> (fragments: Vec<StyledText>)
    ensures
        views(fragments@) == rendered(node@, width as nat),
{
    let mut fragments: Vec<StyledText> = Vec::new();
    assert(views(fragments@) =~= Seq::empty());
    render_into(node, width, &mut fragments);
    assert(views(fragments@) =~= rendered(node@, width as nat));
    fragments
}

/// A render session over one chapter file: where the file lies, the
/// terminal's viewport, the parsed nodes once they are there, and what was
/// rendered from them.
pub struct Chapter {
    title: Option<String>,
    content: String,
    fragments: Vec<StyledText>,
    file_path: String,
    all_nodes: Option<Vec<Node>>,
    terminal_size: (usize, usize),
}

impl Chapter {
    /// The chapter's title, if one was found.
    pub closed spec fn title(&self) -> Option<Seq<char>> {
        text_view(self.title)
    }

    /// The path of the chapter's file.
    pub closed spec fn file_path(&self) -> Seq<char> {
        self.file_path@
    }

    /// The parsed nodes, once the chapter was started.
    pub closed spec fn nodes(&self) -> Option<Seq<NodeView>> {
        match self.all_nodes {
            Some(list) => Some(node_views(list@)),
            None => None,
        }
    }

    /// The viewport: width, then height.
    pub closed spec fn viewport(&self) -> (usize, usize) {
        self.terminal_size
    }

    /// The fragments rendered so far.
    pub closed spec fn fragments(&self) -> Seq<(Seq<char>, Style)> {
        views(self.fragments@)
    }

    /// The characters rendered so far.
    pub closed spec fn content(&self) -> Seq<char> {
        self.content@
    }

    /// The buffer shows exactly the fragments.
    pub open spec fn wf(&self) -> bool {
        is_painted(self.content(), self.fragments())
    }

    /// Whether the session holds the page of its own nodes and nothing else.
    pub open spec fn is_rendered(&self) -> bool {
        self.fragments() == page(self.nodes(), self.viewport().0 as nat)
    }

    /// An empty session for the file at `file_path`.
    pub fn new(file_path: String, term_size: (usize, usize)) -> (chapter: Chapter)
        ensures
            chapter.title().is_none(),
            chapter.file_path() == file_path@,
            chapter.nodes().is_none(),
            chapter.viewport() == term_size,
            chapter.fragments().len() == 0,
            chapter.content().len() == 0,
            chapter.wf(),
    {
        let chapter = Chapter {
            title: None,
            content: String::new(),
            fragments: Vec::new(),
            file_path,
            all_nodes: None,
            terminal_size: term_size,
        };
        assert(views(chapter.fragments@) =~= Seq::empty());
        chapter
    }

    pub fn get_title(&self) -> (title: Option<String>)
        ensures
            text_view(title) == self.title(),
    {
        clone_text(&self.title)
    }

    pub fn get_file_path(&self) -> (path: String)
        ensures
            path@ == self.file_path(),
    {
        self.file_path.clone()
    }

    pub fn get_all_nodes(&self) -> (nodes: Option<&Vec<Node>>)
        ensures
            match nodes {
                Some(list) => self.nodes() == Some(node_views(list@)),
                None => self.nodes().is_none(),
            },
    {
        match &self.all_nodes {
            Some(all_nodes) => Some(all_nodes),
            None => None,
        }
    }

    /// The viewport the chapter is rendered for.
    pub fn get_terminal_size(&self) -> (size: (usize, usize))
        ensures
            size == self.viewport(),
    {
        self.terminal_size
    }

    /// The rendered fragments, in order.
    pub fn get_fragments(&self) -> (fragments: &Vec<StyledText>)
        ensures
            views(fragments@) == self.fragments(),
    {
        &self.fragments
    }

    /// The rendered characters, ready to be printed.
    pub fn get_content(&self) -> (content: &String)
        ensures
            content@ == self.content(),
    {
        &self.content
    }

    /// Takes the outcome of reading and parsing the chapter's file. Without
    /// nodes the chapter could not be read, and the session stays as it was;
    /// with nodes it keeps them and renders their page.
    pub fn start_chapter(&mut self, parsed: Option<Vec<Node>>) -> (outcome: Result<
        (),
        ErrorTextFormating,
    >)
        ensures
            match parsed {
                Some(list) => {
                    &&& outcome.is_ok()
                    &&& final(self).nodes() == Some(node_views(list@))
                    &&& final(self).is_rendered()
                    &&& final(self).wf()
                    &&& final(self).title() == old(self).title()
                    &&& final(self).file_path() == old(self).file_path()
                    &&& final(self).viewport() == old(self).viewport()
                },
                None => outcome == Err::<(), ErrorTextFormating>(
                    ErrorTextFormating::FailedToReadChapter,
                ) && *final(self) == *old(self),
            },
    {
        match parsed {
            Some(list) => {
                self.all_nodes = Some(list);
                self.create_page();
                Ok(())
            },
            None => Err(ErrorTextFormating::FailedToReadChapter),
        }
    }

    /// The identities of the nodes with a formatting tag, in the order of
    /// `all_nodes`.
    pub fn get_content_nodes(all_nodes: &Vec<Node>) -> (ids: Vec<usize>)
        ensures
            ids@ == content_nodes(node_views(all_nodes@)),
    {
        let ghost all = node_views(all_nodes@);
        let mut ids: Vec<usize> = Vec::new();
        let mut i: usize = 0;
        while i < all_nodes.len()
            invariant
                i <= all_nodes@.len(),
                all == node_views(all_nodes@),
                ids@ == content_nodes(all.subrange(0, i as int)),
            decreases all_nodes@.len() - i,
        {
            proof {
                assert(all.subrange(0, i + 1).drop_last() =~= all.subrange(0, i as int));
                assert(all.subrange(0, i + 1).last() == all_nodes@[i as int]@);
            }
            if Chapter::is_formating_node(&all_nodes[i].name) {
                ids.push(all_nodes[i].id);
            }
            i += 1;
        }
        assert(all.subrange(0, i as int) =~= all);
        ids
    }

    /// Renders the page anew from the session's nodes: the tree of the first
    /// node, for the session's viewport. What was rendered before is dropped,
    /// so rendering again changes nothing.
    pub fn create_page(&mut self)
        ensures
            final(self).is_rendered(),
            final(self).wf(),
            final(self).nodes() == old(self).nodes(),
            final(self).title() == old(self).title(),
            final(self).file_path() == old(self).file_path(),
            final(self).viewport() == old(self).viewport(),
    {
        let width: usize = self.terminal_size.0;
        let fragments = match &self.all_nodes {
            Some(all_nodes) => {
                if all_nodes.len() > 0 {
                    render(&all_nodes[0], width)
                } else {
                    Vec::new()
                }
            },
            None => Vec::new(),
        };
        assert(views(fragments@) =~= page(self.nodes(), width as nat));
        let content = paint_all(&fragments);
        self.fragments = fragments;
        self.content = content;
    }

    /// Renders the tree under `node` behind what the session holds already:
    /// fragments and characters are added, none is changed.
    pub fn apply_format_(&mut self, node: &Node)
        requires
            old(self).wf(),
        ensures
            final(self).fragments() == old(self).fragments() + rendered(
                node@,
                old(self).viewport().0 as nat,
            ),
            old(self).content().len() <= final(self).content().len(),
            final(self).content().subrange(0, old(self).content().len() as int) == old(
                self,
            ).content(),
            is_painted(
                final(self).content().skip(old(self).content().len() as int),
                rendered(node@, old(self).viewport().0 as nat),
            ),
            final(self).wf(),
            final(self).nodes() == old(self).nodes(),
            final(self).title() == old(self).title(),
            final(self).file_path() == old(self).file_path(),
            final(self).viewport() == old(self).viewport(),
    {
        let from: usize = self.fragments.len();
        let ghost before = self.fragments@;
        let ghost shown = self.content@;
        render_into(node, self.terminal_size.0, &mut self.fragments);
        proof {
            let now = self.fragments@;
            let more = rendered(node@, self.terminal_size.0 as nat);
            assert(views(now).len() == now.len());
            assert(views(before).len() == before.len());
            assert(views(now) == views(before) + more);
            assert forall|i: int| 0 <= i < more.len() implies views(now.skip(from as int))[i]
                == more[i] by {
                assert(views(now)[from + i] == (views(before) + more)[from + i]);
            }
            assert(views(now.skip(from as int)) =~= more);
        }
        paint_onto(&mut self.content, &self.fragments, from);
        proof {
            let tail = self.content@.skip(shown.len() as int);
            lemma_painted_concat(
                shown,
                views(before),
                tail,
                rendered(node@, self.terminal_size.0 as nat),
            );
            assert(self.content@ =~= shown + tail);
        }
    }

    /// Tests whether `node_name` is one of the formatting tags.
    pub fn is_formating_node(node_name: &String) -> (yes: bool)
        ensures
            yes == is_formatting_tag(node_name@),
    {
        let tag = node_name.as_str();
        let mut i: usize = 0;
        while i < FORMATTING_NODES.len()
            invariant
                i <= FORMATTING_NODES@.len(),
                tag@ == node_name@,
                forall|j: int| 0 <= j < i ==> (#[trigger] FORMATTING_NODES@[j])@ != tag@,
            decreases FORMATTING_NODES@.len() - i,
        {
            if same_text(tag, FORMATTING_NODES[i]) {
                return true;
            }
            i += 1;
        }
        false
    }
}

impl PartialEq for Chapter {
    /// Two sessions are the same where they are over the same file.
    fn eq(&self, other: &Self) -> (same: bool) {
        self.file_path == other.file_path
    }
}

impl vstd::std_specs::cmp::PartialEqSpecImpl for Chapter {
    open spec fn obeys_eq_spec() -> bool {
        true
    }

    open spec fn eq_spec(&self, other: &Self) -> bool {
        self.file_path() == other.file_path()
    }
}

/// Whether two trees are alike in all that a page is made from: tag, text
/// and children, all the way down. Identities and attributes do not count.
pub open spec fn same_tree(left: NodeView, right: NodeView) -> bool
    decreases left,
{
    &&& left.name == right.name
    &&& left.text == right.text
    &&& left.children.len() == right.children.len()
    &&& forall|i: int|
        0 <= i < left.children.len() ==> same_tree(#[trigger] left.children[i], right.children[i])
}

/// Whether two node lists have first nodes that are alike, or none.
pub open spec fn same_source(left: Option<Seq<NodeView>>, right: Option<Seq<NodeView>>) -> bool {
    match (left, right) {
        (Some(a), Some(b)) => (a.len() == 0 && b.len() == 0) || (a.len() > 0 && b.len() > 0
            && same_tree(a[0], b[0])),
        (None, None) => true,
        _ => false,
    }
}

/// Trees that are alike contribute the same fragments, child by child.
pub proof fn lemma_same_trees_render_alike(
    left: NodeView,
    right: NodeView,
    upto: nat,
    width: nat,
)
    requires
        same_tree(left, right),
    ensures
        rendered_upto(left, upto, width) == rendered_upto(right, upto, width),
    decreases left, upto,
{
    if upto > 0 && upto <= left.children.len() {
        let position = upto - 1;
        let child = left.children[position];
        let twin = right.children[position];
        assert(same_tree(child, twin));
        lemma_same_trees_render_alike(left, right, position as nat, width);
        lemma_same_trees_render_alike(child, twin, child.children.len(), width);
        assert(child_text(left, position) == child_text(right, position));
    }
}

/// Rendering is repeatable: a page depends on the tree and the viewport's
/// width and on nothing else. Two sessions whose trees are alike hold, once
/// rendered for the same width, the same fragments.
pub proof fn lemma_render_is_repeatable(first: Chapter, second: Chapter)
    requires
        same_source(first.nodes(), second.nodes()),
        first.viewport().0 == second.viewport().0,
        first.is_rendered(),
        second.is_rendered(),
    ensures
        first.fragments() == second.fragments(),
{
    match (first.nodes(), second.nodes()) {
        (Some(a), Some(b)) => {
            if a.len() > 0 {
                lemma_same_trees_render_alike(
                    a[0],
                    b[0],
                    a[0].children.len(),
                    first.viewport().0 as nat,
                );
            }
        },
        _ => {},
    }
}

} // verus!
