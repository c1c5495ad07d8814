//! Markup: the tokenizer, and the builder that turns tokens into a tree of
//! nodes held in one arena.

use vstd::prelude::*;
use crate::chars::{extend, from_chars, is_blank, to_chars, trim, trimmed};
use crate::layout::text::{
    decode, decoded, node_views, token_views, Node, NodeType, NodeTypeView, NodeView, Token,
    TokenView,
};

verus! {

/// Where the tokenizer stands: the characters gathered since the last `<`
/// or `>`, whether it is inside a tag, and the tokens given out.
pub struct ScanState {
    pub buffer: Seq<char>,
    pub in_tag: bool,
    pub out: Seq<TokenView>,
}

/// The tokenizer before the first character.
pub open spec fn scan_start() -> ScanState {
    ScanState { buffer: Seq::empty(), in_tag: false, out: Seq::empty() }
}

/// The tokenizer after one more character. `<` gives out the gathered text,
/// trimmed, where it was gathered outside a tag and is not blank, and opens
/// a tag. `>` gives out the gathered tag, trimmed, where a tag was open, and
/// closes it. Both leave nothing gathered. Any other character is gathered.
pub open spec fn scan_step(st: ScanState, c: char) -> ScanState {
    if c == '<' {
        ScanState {
            buffer: Seq::empty(),
            in_tag: true,
            out: if !st.in_tag && !is_blank(st.buffer) {
                st.out.push(TokenView::Text(trim(st.buffer)))
            } else {
                st.out
            },
        }
    } else if c == '>' {
        ScanState {
            buffer: Seq::empty(),
            in_tag: false,
            out: if st.in_tag {
                st.out.push(TokenView::Tag(trim(st.buffer)))
            } else {
                st.out
            },
        }
    } else {
        ScanState { buffer: st.buffer.push(c), ..st }
    }
}

/// The tokenizer after the characters of `s`.
pub open spec fn scan_run(s: Seq<char>) -> ScanState
    decreases s.len(),
{
    if s.len() == 0 {
        scan_start()
    } else {
        scan_step(scan_run(s.drop_last()), s.last())
    }
}

/// The tokens at the end of the input: those given out, and the gathered
/// text as a last token where no tag is open and the text is not blank.
pub open spec fn scan_finish(st: ScanState) -> Seq<TokenView> {
    if !st.in_tag && !is_blank(st.buffer) {
        st.out.push(TokenView::Text(trim(st.buffer)))
    } else {
        st.out
    }
}

/// The tokens of a page's text: the tokenizer runs over the decoded text.
pub open spec fn tokens_of(text: Seq<char>) -> Seq<TokenView> {
    scan_finish(scan_run(decode(text)))
}

/// The tokens of `body`: its entities are decoded and its tabs expanded,
/// and then the text is scanned for tags and the runs of text between them.
pub fn tokenize(body: &str) -> (r: Vec<Token>)
    ensures
        token_views(r@) == tokens_of(body@),
{
    let s = decoded(&to_chars(body));
    let mut buffer: Vec<char> = Vec::new();
    let mut in_tag = false;
    let mut out: Vec<Token> = Vec::new();
    let mut i: usize = 0;
    assert(s@.take(0) =~= Seq::<char>::empty());
    assert(token_views(out@) =~= Seq::<TokenView>::empty());
    while i < s.len()
        invariant
            i <= s.len(),
            scan_run(s@.take(i as int)) == (ScanState {
                buffer: buffer@,
                in_tag,
                out: token_views(out@),
            }),
        decreases s.len() - i,
    {
        let c = s[i];
        let ghost next = s@.take(i + 1);
        assert(next.drop_last() =~= s@.take(i as int));
        assert(next.last() == c);
        let ghost given = token_views(out@);
        if c == '<' {
            let text = trimmed(&buffer);
            if !in_tag && text.len() > 0 {
                out.push(Token::Text(from_chars(&text)));
                assert(token_views(out@) =~= given.push(TokenView::Text(text@)));
            }
            buffer = Vec::new();
            in_tag = true;
        } else if c == '>' {
            if in_tag {
                let tag = trimmed(&buffer);
                out.push(Token::Tag(from_chars(&tag)));
                assert(token_views(out@) =~= given.push(TokenView::Tag(tag@)));
            }
            buffer = Vec::new();
            in_tag = false;
        } else {
            buffer.push(c);
        }
        i += 1;
    }
    assert(s@.take(s.len() as int) =~= s@);
    let text = trimmed(&buffer);
    if !in_tag && text.len() > 0 {
        let ghost given = token_views(out@);
        out.push(Token::Text(from_chars(&text)));
        assert(token_views(out@) =~= given.push(TokenView::Text(text@)));
    }
    out
}

/// Where the tree builder stands: the arena, and the positions of the
/// elements that are open, the innermost last.
pub struct TreeState {
    pub nodes: Seq<NodeView>,
    pub open: Seq<usize>,
}

/// The builder before the first token.
pub open spec fn tree_start() -> TreeState {
    TreeState { nodes: Seq::empty(), open: Seq::empty() }
}

/// The arena `nodes` with `child` as a further child of the node at
/// `parent`.
pub open spec fn adopt(nodes: Seq<NodeView>, parent: usize, child: usize) -> Seq<NodeView> {
    nodes.update(
        parent as int,
        NodeView {
            children: nodes[parent as int].children.push(child),
            ..nodes[parent as int]
        },
    )
}

/// The builder after a run of text: a leaf under the innermost open
/// element. With no element open the text is dropped.
pub open spec fn add_text(st: TreeState, text: Seq<char>) -> TreeState {
    if st.open.len() > 0 {
        let parent = st.open.last();
        let leaf = NodeView {
            children: Seq::empty(),
            node_type: NodeTypeView::Text { text },
            parent: Some(parent),
        };
        TreeState {
            nodes: adopt(st.nodes.push(leaf), parent, st.nodes.len() as usize),
            ..st
        }
    } else {
        st
    }
}

/// Whether a tag closes an element.
pub open spec fn is_end_tag(tag: Seq<char>) -> bool {
    tag.len() > 0 && tag[0] == '/'
}

/// The builder after a tag. An end tag closes the innermost open element,
/// whatever its name. Any other tag is a new element, under the innermost
/// open element where there is one, and is open from now on.
pub open spec fn add_tag(st: TreeState, tag: Seq<char>) -> TreeState {
    if is_end_tag(tag) {
        if st.open.len() > 0 {
            TreeState { open: st.open.drop_last(), ..st }
        } else {
            st
        }
    } else {
        let at = st.nodes.len() as usize;
        if st.open.len() > 0 {
            let parent = st.open.last();
            let element = NodeView {
                children: Seq::empty(),
                node_type: NodeTypeView::Element { tag },
                parent: Some(parent),
            };
            TreeState {
                nodes: adopt(st.nodes.push(element), parent, at),
                open: st.open.push(at),
            }
        } else {
            let element = NodeView {
                children: Seq::empty(),
                node_type: NodeTypeView::Element { tag },
                parent: None,
            };
            TreeState { nodes: st.nodes.push(element), open: st.open.push(at) }
        }
    }
}

/// The builder after one more token.
pub open spec fn feed_token(st: TreeState, token: TokenView) -> TreeState {
    match token {
        TokenView::Text(text) => add_text(st, text),
        TokenView::Tag(tag) => add_tag(st, tag),
    }
}

/// The builder after the tokens of `tokens`.
pub open spec fn feed(st: TreeState, tokens: Seq<TokenView>) -> TreeState
    decreases tokens.len(),
{
    if tokens.len() == 0 {
        st
    } else {
        feed_token(feed(st, tokens.drop_last()), tokens.last())
    }
}

/// The tree of a token sequence.
pub open spec fn tree_of(tokens: Seq<TokenView>) -> Seq<NodeView> {
    feed(tree_start(), tokens).nodes
}

/// The invariant of an arena. A node's parent stands in front of it, is an
/// element, and lists the node among its children. A node's children stand
/// behind it, in rising order, and each names the node as its parent. A
/// leaf of text has no children.
pub open spec fn arena_wf(nodes: Seq<NodeView>) -> bool {
    &&& forall|i: int|
        0 <= i < nodes.len() ==> ((#[trigger] nodes[i]).parent matches Some(p) ==> p < i
            && nodes[p as int].node_type is Element && nodes[p as int].children.contains(
            i as usize,
        ))
    &&& forall|i: int, k: int|
        0 <= i < nodes.len() && 0 <= k < nodes[i].children.len() ==> i
            < #[trigger] nodes[i].children[k] < nodes.len() && nodes[nodes[i].children[k] as int].parent
            == Some(i as usize)
    &&& forall|i: int, j: int, k: int|
        0 <= i < nodes.len() && 0 <= j < k < nodes[i].children.len()
            ==> #[trigger] nodes[i].children[j] < #[trigger] nodes[i].children[k]
    &&& forall|i: int|
        0 <= i < nodes.len() && (#[trigger] nodes[i]).node_type is Text
            ==> nodes[i].children.len() == 0
}

/// The invariant of a builder: its arena is well formed and fits the
/// machine, and what is open is an element of the arena.
pub open spec fn builder_wf(st: TreeState) -> bool {
    &&& arena_wf(st.nodes)
    &&& st.nodes.len() <= usize::MAX
    &&& forall|k: int|
        0 <= k < st.open.len() ==> (#[trigger] st.open[k]) < st.nodes.len()
            && st.nodes[st.open[k] as int].node_type is Element
}

/// A new node under an open element keeps the arena well formed.
proof fn lemma_adopt_wf(nodes: Seq<NodeView>, parent: usize, node: NodeView)
    requires
        arena_wf(nodes),
        nodes.len() < usize::MAX,
        parent < nodes.len(),
        nodes[parent as int].node_type is Element,
        node.children.len() == 0,
        node.parent == Some(parent),
    ensures
        arena_wf(adopt(nodes.push(node), parent, nodes.len() as usize)),
        adopt(nodes.push(node), parent, nodes.len() as usize).len() == nodes.len() + 1,
        forall|i: int|
            0 <= i < nodes.len() ==> (#[trigger] adopt(
                nodes.push(node),
                parent,
                nodes.len() as usize,
            )[i]).node_type == nodes[i].node_type,
        adopt(nodes.push(node), parent, nodes.len() as usize)[nodes.len() as int].node_type
            == node.node_type,
{
    let n = nodes.len() as int;
    let at = nodes.len() as usize;
    let after = adopt(nodes.push(node), parent, at);
    let p = parent as int;
    assert(after[p].children == nodes[p].children.push(at));
    assert(after[n] == node);
    assert forall|i: int| 0 <= i < n && i != p implies after[i] == nodes[i] by {}
    assert forall|i: int| 0 <= i < after.len() implies ((#[trigger] after[i]).parent matches Some(
        q,
    ) ==> q < i && after[q as int].node_type is Element && after[q as int].children.contains(
        i as usize,
    )) by {
        if i < n {
            assert(after[i].parent == nodes[i].parent);
            if let Some(q) = nodes[i].parent {
                assert(nodes[q as int].children.contains(i as usize));
                let w = choose|w: int|
                    0 <= w < nodes[q as int].children.len() && nodes[q as int].children[w]
                        == i as usize;
                assert(after[q as int].children[w] == i as usize);
            }
        } else {
            assert(after[p].children[nodes[p].children.len() as int] == at);
        }
    }
    assert forall|i: int, k: int|
        0 <= i < after.len() && 0 <= k < after[i].children.len() implies i
        < #[trigger] after[i].children[k] < after.len() && after[after[i].children[k] as int].parent
        == Some(i as usize) by {
        if i == p {
            if k < nodes[p].children.len() {
                let c = nodes[p].children[k];
                assert(after[p].children[k] == c);
                assert(after[c as int] == nodes[c as int]);
            }
        } else if i < n {
            let c = nodes[i].children[k];
            assert(after[c as int].parent == nodes[c as int].parent);
        }
    }
    assert forall|i: int, j: int, k: int|
        0 <= i < after.len() && 0 <= j < k < after[i].children.len()
        implies #[trigger] after[i].children[j] < #[trigger] after[i].children[k] by {
        if i == p {
            assert(after[p].children[j] == nodes[p].children[j]);
            if k < nodes[p].children.len() {
                assert(after[p].children[k] == nodes[p].children[k]);
            }
        }
    }
    assert forall|i: int| 0 <= i < after.len() && (#[trigger] after[i]).node_type is Text
        implies after[i].children.len() == 0 by {}
}

/// A run of text keeps the builder well formed.
pub proof fn lemma_add_text_wf(st: TreeState, text: Seq<char>)
    requires
        builder_wf(st),
        st.open.len() == 0 || st.nodes.len() < usize::MAX,
    ensures
        builder_wf(add_text(st, text)),
{
    if st.open.len() > 0 {
        let parent = st.open.last();
        let leaf = NodeView {
            children: Seq::empty(),
            node_type: NodeTypeView::Text { text },
            parent: Some(parent),
        };
        lemma_adopt_wf(st.nodes, parent, leaf);
    }
}

/// A tag keeps the builder well formed.
pub proof fn lemma_add_tag_wf(st: TreeState, tag: Seq<char>)
    requires
        builder_wf(st),
        is_end_tag(tag) || st.nodes.len() < usize::MAX,
    ensures
        builder_wf(add_tag(st, tag)),
{
    let after = add_tag(st, tag);
    if is_end_tag(tag) {
    } else if st.open.len() > 0 {
        let parent = st.open.last();
        let element = NodeView {
            children: Seq::empty(),
            node_type: NodeTypeView::Element { tag },
            parent: Some(parent),
        };
        lemma_adopt_wf(st.nodes, parent, element);
        assert forall|k: int| 0 <= k < after.open.len() implies (#[trigger] after.open[k])
            < after.nodes.len() && after.nodes[after.open[k] as int].node_type is Element by {
            if k < st.open.len() {
                assert(after.open[k] == st.open[k]);
            }
        }
    } else {
        let element = NodeView {
            children: Seq::empty(),
            node_type: NodeTypeView::Element { tag },
            parent: None,
        };
        let n = st.nodes.len() as int;
        assert forall|i: int| 0 <= i < n implies after.nodes[i] == st.nodes[i] by {}
        assert(after.nodes[n] == element);
        assert forall|i: int|
            0 <= i < after.nodes.len() implies ((#[trigger] after.nodes[i]).parent matches Some(
            q,
        ) ==> q < i && after.nodes[q as int].node_type is Element
            && after.nodes[q as int].children.contains(i as usize)) by {
            if i < n {
                assert(after.nodes[i] == st.nodes[i]);
                if let Some(q) = st.nodes[i].parent {
                    assert(after.nodes[q as int] == st.nodes[q as int]);
                }
            }
        }
        assert forall|i: int, k: int|
            0 <= i < after.nodes.len() && 0 <= k < after.nodes[i].children.len() implies i
            < #[trigger] after.nodes[i].children[k] < after.nodes.len()
            && after.nodes[after.nodes[i].children[k] as int].parent == Some(i as usize) by {
            assert(after.nodes[i] == st.nodes[i]);
            let c = st.nodes[i].children[k];
            assert(after.nodes[c as int] == st.nodes[c as int]);
        }
        assert forall|i: int, j: int, k: int|
            0 <= i < after.nodes.len() && 0 <= j < k < after.nodes[i].children.len()
            implies #[trigger] after.nodes[i].children[j] < #[trigger] after.nodes[i].children[k] by {
            assert(after.nodes[i] == st.nodes[i]);
        }
    }
}

/// Whether the arena `later` is `earlier` grown: no shorter, every node of
/// `earlier` still at its place with its type and its parent, and with the
/// children it had in front of any new ones.
pub open spec fn grown_from(later: Seq<NodeView>, earlier: Seq<NodeView>) -> bool {
    &&& earlier.len() <= later.len()
    &&& forall|i: int|
        0 <= i < earlier.len() ==> (#[trigger] later[i]).node_type == earlier[i].node_type
            && later[i].parent == earlier[i].parent && earlier[i].children.is_prefix_of(
            later[i].children,
        )
}

/// Every arena is itself grown.
pub proof fn lemma_grown_same(nodes: Seq<NodeView>)
    ensures
        grown_from(nodes, nodes),
{
    assert forall|i: int| 0 <= i < nodes.len() implies (#[trigger] nodes[i]).children.is_prefix_of(
        nodes[i].children,
    ) by {
        assert(nodes[i].children.take(nodes[i].children.len() as int) =~= nodes[i].children);
    }
}

/// What has grown from a grown arena has grown from the first.
pub proof fn lemma_grown_on(last: Seq<NodeView>, mid: Seq<NodeView>, first: Seq<NodeView>)
    requires
        grown_from(mid, first),
        grown_from(last, mid),
    ensures
        grown_from(last, first),
{
    assert forall|i: int| 0 <= i < first.len() implies (#[trigger] last[i]).node_type
        == first[i].node_type && last[i].parent == first[i].parent
        && first[i].children.is_prefix_of(last[i].children) by {
        assert(mid[i].parent == first[i].parent);
        let a = first[i].children;
        let b = mid[i].children;
        let c = last[i].children;
        assert(a.is_prefix_of(b) && b.is_prefix_of(c));
        assert(c.take(a.len() as int) =~= b.take(a.len() as int));
    }
}

/// One token adds at most one node to the arena and takes nothing away.
pub proof fn lemma_token_appends(st: TreeState, token: TokenView)
    requires
        builder_wf(st),
        st.nodes.len() < usize::MAX || feed_token(st, token).nodes == st.nodes,
    ensures
        builder_wf(feed_token(st, token)),
        grown_from(feed_token(st, token).nodes, st.nodes),
        feed_token(st, token).nodes.len() <= st.nodes.len() + 1,
{
    let after = feed_token(st, token);
    match token {
        TokenView::Text(text) => lemma_add_text_wf(st, text),
        TokenView::Tag(tag) => lemma_add_tag_wf(st, tag),
    }
    if after.nodes == st.nodes {
        lemma_grown_same(st.nodes);
    } else {
        assert forall|i: int|
            0 <= i < st.nodes.len() implies (#[trigger] after.nodes[i]).node_type
            == st.nodes[i].node_type && after.nodes[i].parent == st.nodes[i].parent
            && st.nodes[i].children.is_prefix_of(after.nodes[i].children) by {
            if after.nodes[i].children != st.nodes[i].children {
                assert(after.nodes[i].children == st.nodes[i].children.push(
                    st.nodes.len() as usize,
                ));
                assert(after.nodes[i].children.take(st.nodes[i].children.len() as int)
                    =~= st.nodes[i].children);
            } else {
                assert(st.nodes[i].children.take(st.nodes[i].children.len() as int)
                    =~= st.nodes[i].children);
            }
        }
    }
}

/// The arena only grows. Whatever tokens a well-formed builder takes, it
/// stays well formed, a node that stands in the arena keeps its place, its
/// type and its parent, and the children it has stay in front of those it
/// gets.
pub proof fn law_arena_only_grows(st: TreeState, tokens: Seq<TokenView>)
    requires
        builder_wf(st),
        st.nodes.len() + tokens.len() <= usize::MAX,
    ensures
        builder_wf(feed(st, tokens)),
        grown_from(feed(st, tokens).nodes, st.nodes),
        feed(st, tokens).nodes.len() <= st.nodes.len() + tokens.len(),
    decreases tokens.len(),
{
    if tokens.len() == 0 {
        lemma_grown_same(st.nodes);
    } else {
        let mid = feed(st, tokens.drop_last());
        law_arena_only_grows(st, tokens.drop_last());
        lemma_token_appends(mid, tokens.last());
        lemma_grown_on(feed(st, tokens).nodes, mid.nodes, st.nodes);
    }
}

/// A tree builder: the text of a page, and the arena that its tokens have
/// built so far.
#[derive(Debug)]
pub struct HTMLParser {
    body: String,
    unfinished: Vec<usize>,
    nodes: Vec<Node>,
}

impl HTMLParser {
    /// The text that the builder reads.
    pub closed spec fn body_view(&self) -> Seq<char> {
        self.body@
    }

    /// Where the builder stands.
    pub closed spec fn state(&self) -> TreeState {
        TreeState { nodes: node_views(self.nodes@), open: self.unfinished@ }
    }

    /// The invariant of the builder.
    pub open spec fn wf(&self) -> bool {
        builder_wf(self.state())
    }

    /// A builder for the text `body`, with an empty arena.
    pub fn new(body: String) -> (r: Self)
        ensures
            r.body_view() == body@,
            r.state() == tree_start(),
            r.wf(),
    {
        let r = HTMLParser { body, unfinished: Vec::new(), nodes: Vec::new() };
        assert(node_views(r.nodes@) =~= Seq::<NodeView>::empty());
        r
    }

    /// Appends `node` to the arena, as a child of `parent` where one is
    /// given.
    fn attach(&mut self, node: Node, parent: Option<usize>)
        requires
            parent matches Some(p) ==> p < old(self).nodes@.len(),
        ensures
            final(self).body == old(self).body,
            final(self).unfinished == old(self).unfinished,
            old(self).nodes@.len() < usize::MAX,
            node_views(final(self).nodes@) == match parent {
                Some(p) => adopt(
                    node_views(old(self).nodes@).push(node@),
                    p,
                    old(self).nodes@.len() as usize,
                ),
                None => node_views(old(self).nodes@).push(node@),
            },
    {
        let at = self.nodes.len();
        let ghost before = node_views(self.nodes@);
        self.nodes.push(node);
        assert(self.nodes.len() == at + 1);
        match parent {
            Some(p) => {
                self.nodes[p].children.push(at);
                assert(node_views(self.nodes@) =~= adopt(before.push(node@), p, at));
            },
            None => {
                assert(node_views(self.nodes@) =~= before.push(node@));
            },
        }
    }

    /// Takes a run of text: a leaf under the innermost open element, or
    /// nothing where no element is open.
    pub fn add_text(&mut self, text: String)
        requires
            old(self).wf(),
        ensures
            final(self).state() == add_text(old(self).state(), text@),
            final(self).body_view() == old(self).body_view(),
            final(self).wf(),
            grown_from(final(self).state().nodes, old(self).state().nodes),
    {
        let ghost before = self.state();
        let ghost content = text@;
        let n = self.unfinished.len();
        if n > 0 {
            let parent = self.unfinished[n - 1];
            let node = Node {
                node_type: NodeType::Text { text },
                children: Vec::new(),
                parent: Some(parent),
            };
            self.attach(node, Some(parent));
        }
        proof {
            lemma_token_appends(before, TokenView::Text(content));
        }
    }

    /// Takes a tag. One that begins with `/` closes the innermost open
    /// element, whatever its name. Any other is a new element with the
    /// whole tag as its name, under the innermost open element where there
    /// is one, and open from now on.
    pub fn add_tag(&mut self, tag: String)
        requires
            old(self).wf(),
        ensures
            final(self).state() == add_tag(old(self).state(), tag@),
            final(self).body_view() == old(self).body_view(),
            final(self).wf(),
            grown_from(final(self).state().nodes, old(self).state().nodes),
    {
        let ghost before = self.state();
        let ghost content = tag@;
        let name = to_chars(tag.as_str());
        if name.len() > 0 && name[0] == '/' {
            let ghost open = self.unfinished@;
            self.unfinished.pop();
            assert(open.len() > 0 ==> self.unfinished@ =~= open.drop_last());
        } else {
            let n = self.unfinished.len();
            let parent = if n > 0 {
                Some(self.unfinished[n - 1])
            } else {
                None
            };
            let at = self.nodes.len();
            let node = Node { node_type: NodeType::Element { tag }, children: Vec::new(), parent };
            self.attach(node, parent);
            self.unfinished.push(at);
        }
        proof {
            lemma_token_appends(before, TokenView::Tag(content));
        }
    }

    /// Takes the tokens of `tokens`, in order.
    pub fn feed(&mut self, tokens: &Vec<Token>)
        requires
            old(self).wf(),
        ensures
            final(self).state() == feed(old(self).state(), token_views(tokens@)),
            final(self).body_view() == old(self).body_view(),
            final(self).wf(),
            grown_from(final(self).state().nodes, old(self).state().nodes),
    {
        let ghost all = token_views(tokens@);
        let mut i: usize = 0;
        assert(all.take(0) =~= Seq::<TokenView>::empty());
        proof {
            lemma_grown_same(self.state().nodes);
        }
        while i < tokens.len()
            invariant
                i <= tokens.len(),
                all == token_views(tokens@),
                self.state() == feed(old(self).state(), all.take(i as int)),
                self.body_view() == old(self).body_view(),
                self.wf(),
                grown_from(self.state().nodes, old(self).state().nodes),
            decreases tokens.len() - i,
        {
            let ghost here = self.state().nodes;
            let ghost next = all.take(i + 1);
            assert(next.drop_last() =~= all.take(i as int));
            assert(next.last() == tokens@[i as int]@);
            match &tokens[i] {
                Token::Text(text) => self.add_text(text.clone()),
                Token::Tag(tag) => self.add_tag(tag.clone()),
            }
            proof {
                lemma_grown_on(self.state().nodes, here, old(self).state().nodes);
            }
            i += 1;
        }
        assert(all.take(tokens.len() as int) =~= all);
    }

    /// Reads the builder's text and takes its tokens. Returns the arena as
    /// it then stands; elements that the text leaves open stay as they are.
    /// What stood in the arena before stands there still.
    pub fn parse(&mut self) -> (r: Vec<Node>)
        requires
            old(self).wf(),
        ensures
            final(self).state() == feed(old(self).state(), tokens_of(old(self).body_view())),
            final(self).body_view() == old(self).body_view(),
            final(self).wf(),
            grown_from(final(self).state().nodes, old(self).state().nodes),
            node_views(r@) == final(self).state().nodes,
            arena_wf(node_views(r@)),
    {
        let tokens = tokenize(self.body.as_str());
        self.feed(&tokens);
        copy_nodes(&self.nodes)
    }

    /// Gives the arena out.
    pub fn finish(self) -> (r: Vec<Node>)
        ensures
            node_views(r@) == self.state().nodes,
    {
        self.nodes
    }
}

/// A copy of an arena.
fn copy_nodes(nodes: &Vec<Node>) -> (r: Vec<Node>)
    ensures
        node_views(r@) == node_views(nodes@),
{
    let mut r: Vec<Node> = Vec::new();
    let mut i: usize = 0;
    while i < nodes.len()
        invariant
            i <= nodes.len(),
            r@.len() == i,
            forall|j: int| 0 <= j < i ==> r@[j]@ == nodes@[j]@,
        decreases nodes.len() - i,
    {
        r.push(nodes[i].clone());
        i += 1;
    }
    assert(node_views(r@) =~= node_views(nodes@));
    r
}

/// The tree of `tokens`: every node that the tokens give, in the order in
/// which they give it.
pub fn build_tree(tokens: &Vec<Token>) -> (r: Vec<Node>)
    ensures
        node_views(r@) == tree_of(token_views(tokens@)),
        arena_wf(node_views(r@)),
{
    let mut parser = HTMLParser::new(String::new());
    parser.feed(tokens);
    parser.finish()
}

/// Whether `list` holds `x`.
fn holds(list: &Vec<usize>, x: usize) -> (r: bool)
    ensures
        r == list@.contains(x),
{
    let mut k: usize = 0;
    while k < list.len()
        invariant
            k <= list.len(),
            forall|w: int| 0 <= w < k ==> list@[w] != x,
        decreases list.len() - k,
    {
        if list[k] == x {
            return true;
        }
        k += 1;
    }
    false
}

/// Whether the node at `at` stands to its parent and its children as the
/// invariant of an arena asks.
pub open spec fn node_wf(nodes: Seq<NodeView>, at: int) -> bool {
    &&& nodes[at].parent matches Some(p) ==> p < at && nodes[p as int].node_type is Element
        && nodes[p as int].children.contains(at as usize)
    &&& forall|k: int|
        0 <= k < nodes[at].children.len() ==> at < #[trigger] nodes[at].children[k] < nodes.len()
            && nodes[nodes[at].children[k] as int].parent == Some(at as usize)
    &&& forall|j: int, k: int|
        0 <= j < k < nodes[at].children.len() ==> #[trigger] nodes[at].children[j]
            < #[trigger] nodes[at].children[k]
    &&& nodes[at].node_type is Text ==> nodes[at].children.len() == 0
}

/// An arena is well formed where each of its nodes is.
pub proof fn lemma_arena_by_node(nodes: Seq<NodeView>)
    ensures
        arena_wf(nodes) <==> forall|i: int| 0 <= i < nodes.len() ==> node_wf(nodes, i),
{
    if arena_wf(nodes) {
        assert forall|i: int| 0 <= i < nodes.len() implies node_wf(nodes, i) by {
            assert(nodes[i] == nodes[i]);
        }
    }
    if forall|i: int| 0 <= i < nodes.len() ==> node_wf(nodes, i) {
        assert forall|i: int| 0 <= i < nodes.len() implies ((#[trigger] nodes[i]).parent matches Some(
            p,
        ) ==> p < i && nodes[p as int].node_type is Element
            && nodes[p as int].children.contains(i as usize)) by {
            assert(node_wf(nodes, i));
        }
        assert forall|i: int, k: int|
            0 <= i < nodes.len() && 0 <= k < nodes[i].children.len() implies i
            < #[trigger] nodes[i].children[k] < nodes.len()
            && nodes[nodes[i].children[k] as int].parent == Some(i as usize) by {
            assert(node_wf(nodes, i));
        }
        assert forall|i: int, j: int, k: int|
            0 <= i < nodes.len() && 0 <= j < k < nodes[i].children.len()
            implies #[trigger] nodes[i].children[j] < #[trigger] nodes[i].children[k] by {
            assert(node_wf(nodes, i));
        }
        assert forall|i: int| 0 <= i < nodes.len() && (#[trigger] nodes[i]).node_type is Text
            implies nodes[i].children.len() == 0 by {
            assert(node_wf(nodes, i));
        }
    }
}

/// Tests whether the node at `at` stands to its parent and its children as
/// the invariant of an arena asks.
fn check_node(nodes: &Vec<Node>, at: usize) -> (r: bool)
    requires
        at < nodes.len(),
    ensures
        r == node_wf(node_views(nodes@), at as int),
{
    let ghost arena = node_views(nodes@);
    let node = &nodes[at];
    assert(arena[at as int] == node@);
    match node.parent {
        Some(p) => {
            if p >= at {
                return false;
            }
            assert(arena[p as int] == nodes@[p as int]@);
            match &nodes[p].node_type {
                NodeType::Element { .. } => {},
                NodeType::Text { .. } => {
                    return false;
                },
            }
            if !holds(&nodes[p].children, at) {
                return false;
            }
        },
        None => {},
    }
    match &node.node_type {
        NodeType::Text { .. } => {
            if node.children.len() > 0 {
                return false;
            }
        },
        NodeType::Element { .. } => {},
    }
    let mut k: usize = 0;
    while k < node.children.len()
        invariant
            k <= node.children.len(),
            at < nodes.len(),
            arena == node_views(nodes@),
            arena[at as int] == node@,
            forall|m: int|
                0 <= m < k ==> at < #[trigger] node.children@[m] < nodes.len()
                    && arena[node.children@[m] as int].parent == Some(at),
            forall|j: int, m: int|
                0 <= j < m < k ==> #[trigger] node.children@[j] < #[trigger] node.children@[m],
        decreases node.children.len() - k,
    {
        let child = node.children[k];
        if child <= at || child >= nodes.len() {
            assert(!(at < arena[at as int].children[k as int] < arena.len()));
            return false;
        }
        assert(arena[child as int] == nodes@[child as int]@);
        match nodes[child].parent {
            Some(p) => {
                if p != at {
                    assert(arena[arena[at as int].children[k as int] as int].parent != Some(at));
                    return false;
                }
            },
            None => {
                assert(arena[arena[at as int].children[k as int] as int].parent != Some(at));
                return false;
            },
        }
        if k > 0 && node.children[k - 1] >= child {
            assert(!(arena[at as int].children[k - 1] < arena[at as int].children[k as int]));
            return false;
        }
        k += 1;
    }
    true
}

/// Tests whether `nodes` is a well-formed arena.
pub fn is_arena(nodes: &Vec<Node>) -> (r: bool)
    ensures
        r == arena_wf(node_views(nodes@)),
{
    proof {
        lemma_arena_by_node(node_views(nodes@));
    }
    let mut i: usize = 0;
    while i < nodes.len()
        invariant
            i <= nodes.len(),
            forall|j: int| 0 <= j < i ==> node_wf(node_views(nodes@), j),
        decreases nodes.len() - i,
    {
        if !check_node(nodes, i) {
            return false;
        }
        i += 1;
    }
    true
}

/// `n` spaces.
pub open spec fn spaces(n: nat) -> Seq<char> {
    Seq::new(n, |i: int| ' ')
}

/// The line that shows one node: the indent, then an element's tag between
/// `<` and `>` or a leaf's text, then a line feed.
pub open spec fn node_line(node: NodeView, indent: nat) -> Seq<char> {
    match node.node_type {
        NodeTypeView::Element { tag } => spaces(indent) + seq!['<'] + tag + seq!['>', '\n'],
        NodeTypeView::Text { text } => spaces(indent) + text + seq!['\n'],
    }
}

/// The lines that show the node at `at` and everything under it: the node's
/// own line, then its children in order, each two spaces further in.
pub open spec fn subtree_text(nodes: Seq<NodeView>, at: int, indent: nat) -> Seq<char>
    decreases nodes.len() - at, 1nat, 0nat,
    when arena_wf(nodes) && 0 <= at < nodes.len()
{
    node_line(nodes[at], indent) + children_text(
        nodes,
        at,
        nodes[at].children.len(),
        indent + 2,
    )
}

/// The lines that show the first `count` children of the node at `at`.
pub open spec fn children_text(nodes: Seq<NodeView>, at: int, count: nat, indent: nat) -> Seq<
    char,
>
    decreases nodes.len() - at, 0nat, count,
    when arena_wf(nodes) && 0 <= at < nodes.len() && count <= nodes[at].children.len()
{
    if count == 0 {
        Seq::empty()
    } else {
        children_text(nodes, at, (count - 1) as nat, indent) + subtree_text(
            nodes,
            nodes[at].children[count - 1] as int,
            indent,
        )
    }
}

/// Appends the lines of a subtree to `out`.
fn write_subtree(nodes: &Vec<Node>, at: usize, indent: usize, out: &mut Vec<char>)
    requires
        arena_wf(node_views(nodes@)),
        at < nodes.len(),
        indent + 2 * (nodes.len() - at) <= usize::MAX,
    ensures
        final(out)@ == old(out)@ + subtree_text(node_views(nodes@), at as int, indent as nat),
    decreases nodes.len() - at,
{
    let ghost arena = node_views(nodes@);
    let ghost start = out@;
    let node = &nodes[at];
    assert(arena[at as int] == node@);
    let mut i: usize = 0;
    while i < indent
        invariant
            i <= indent,
            out@ == start + spaces(i as nat),
        decreases indent - i,
    {
        out.push(' ');
        i += 1;
        assert(out@ =~= start + spaces(i as nat));
    }
    match &node.node_type {
        NodeType::Element { tag } => {
            out.push('<');
            extend(out, &to_chars(tag.as_str()));
            out.push('>');
        },
        NodeType::Text { text } => {
            extend(out, &to_chars(text.as_str()));
        },
    }
    out.push('\n');
    assert(out@ =~= start + node_line(node@, indent as nat));
    let ghost line = out@;
    let mut k: usize = 0;
    assert(line + children_text(arena, at as int, 0, (indent + 2) as nat) =~= line);
    while k < node.children.len()
        invariant
            k <= node.children.len(),
            arena == node_views(nodes@),
            arena_wf(arena),
            at < nodes.len(),
            arena[at as int] == node@,
            indent + 2 * (nodes.len() - at) <= usize::MAX,
            out@ == line + children_text(arena, at as int, k as nat, (indent + 2) as nat),
        decreases node.children.len() - k,
    {
        let child = node.children[k];
        assert(child == arena[at as int].children[k as int]);
        write_subtree(nodes, child, indent + 2, out);
        k += 1;
        assert(out@ =~= line + children_text(arena, at as int, k as nat, (indent + 2) as nat));
    }
    assert(out@ =~= start + subtree_text(arena, at as int, indent as nat));
}

/// The lines that show the node at `at` of the arena `nodes` and everything
/// under it, the node itself `indent` spaces in and each level under it two
/// spaces further.
pub fn tree_text(nodes: &Vec<Node>, at: usize, indent: usize) -> (r: String)
    requires
        arena_wf(node_views(nodes@)),
        at < nodes.len(),
        indent + 2 * (nodes.len() - at) <= usize::MAX,
    ensures
        r@ == subtree_text(node_views(nodes@), at as int, indent as nat),
{
    let mut out: Vec<char> = Vec::new();
    write_subtree(nodes, at, indent, &mut out);
    assert(Seq::<char>::empty() + subtree_text(node_views(nodes@), at as int, indent as nat)
        =~= subtree_text(node_views(nodes@), at as int, indent as nat));
    from_chars(&out)
}

} // verus!
