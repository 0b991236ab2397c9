//! The renderer: a pure derivation of the view tree from the
//! application state. Equal states give equal trees, stated by the
//! exact tree equalities in the contracts.

use vstd::prelude::*;

use crate::num::append_i32;
use crate::num::int_chars;
use crate::store::AppState;
use crate::store::Post;
use crate::store::PostV;
use crate::store::StateV;
use vstd::string::StringExecFns;

verus! {

broadcast use vstd::seq::group_seq_axioms, vstd::std_specs::vec::group_vec_axioms;

/// A node of the view tree: an element with a tag, a class list,
/// attributes and children, or a run of text.
#[derive(PartialEq, Eq, Debug)]
pub enum Node {
    Element {
        tag: String,
        classes: Vec<String>,
        attrs: Vec<(String, String)>,
        children: Vec<Node>,
    },
    Text(String),
}

/// Mathematical image of a [`Node`].
#[verifier::ext_equal]
pub enum NodeV {
    Element {
        tag: Seq<char>,
        classes: Seq<Seq<char>>,
        attrs: Seq<(Seq<char>, Seq<char>)>,
        children: Seq<NodeV>,
    },
    Text(Seq<char>),
}

/// Mathematical image of a node, children and all.
pub open spec fn node_view(n: Node) -> NodeV
    decreases n, 1int,
    via node_view_decreases
{
    match n {
        Node::Text(t) => NodeV::Text(t@),
        Node::Element { tag, classes, attrs, children } => NodeV::Element {
            tag: tag@,
            classes: Seq::new(classes.len() as nat, |i: int| classes[i]@),
            attrs: Seq::new(attrs.len() as nat, |i: int| (attrs[i].0@, attrs[i].1@)),
            children: nodes_view(children@),
        },
    }
}

/// Mathematical image of a node list, in order.
pub open spec fn nodes_view(nodes: Seq<Node>) -> Seq<NodeV>
    decreases nodes, 0int,
{
    if nodes.len() == 0 {
        Seq::empty()
    } else {
        seq![node_view(nodes[0])] + nodes_view(nodes.subrange(1, nodes.len() as int))
    }
}

#[via_fn]
proof fn node_view_decreases(n: Node) {
    if n is Element {
        let children = n->Element_children;
        assert(decreases_to!(n => children));
        assert(decreases_to!(children => children@));
        assert(decreases_to!(n => children@));
    }
}

/// The image of a node list is pointwise the image of its nodes.
pub broadcast proof fn lemma_nodes_view(nodes: Seq<Node>)
    ensures
        (#[trigger] nodes_view(nodes)).len() == nodes.len(),
        forall|i: int| 0 <= i < nodes.len() ==> nodes_view(nodes)[i] == node_view(nodes[i]),
    decreases nodes.len(),
{
    if nodes.len() > 0 {
        let rest = nodes.subrange(1, nodes.len() as int);
        lemma_nodes_view(rest);
        assert forall|i: int| 0 <= i < nodes.len() implies nodes_view(nodes)[i] == node_view(
            nodes[i],
        ) by {
            if i > 0 {
                assert(nodes_view(nodes)[i] == nodes_view(rest)[i - 1]);
                assert(rest[i - 1] == nodes[i]);
            }
        }
    }
}

impl View for Node {
    type V = NodeV;

    open spec fn view(&self) -> NodeV {
        node_view(*self)
    }
}

/// One navigation item: a list entry holding a link.
pub open spec fn nav_item_v(target: Seq<char>, label: Seq<char>) -> NodeV {
    NodeV::Element {
        tag: "li"@,
        classes: Seq::empty(),
        attrs: Seq::empty(),
        children: seq![
            NodeV::Element {
                tag: "a"@,
                classes: Seq::empty(),
                attrs: seq![("href"@, target)],
                children: seq![NodeV::Text(label)],
            },
        ],
    }
}

/// The brand link home.
pub open spec fn brand_v() -> NodeV {
    NodeV::Element {
        tag: "a"@,
        classes: seq!["brand-logo"@],
        attrs: seq![("href"@, "/"@)],
        children: seq![NodeV::Text("Poke' Times"@)],
    }
}

/// The list of the three navigation links.
pub open spec fn nav_list_v() -> NodeV {
    NodeV::Element {
        tag: "ul"@,
        classes: seq!["right"@],
        attrs: Seq::empty(),
        children: seq![
            nav_item_v("/"@, "Home"@),
            nav_item_v("/about"@, "About"@),
            nav_item_v("/contact"@, "Contact"@),
        ],
    }
}

/// The container inside the navigation bar.
pub open spec fn nav_inner_v() -> NodeV {
    NodeV::Element {
        tag: "div"@,
        classes: seq!["container"@],
        attrs: Seq::empty(),
        children: seq![brand_v(), nav_list_v()],
    }
}

/// The navigation bar shown on every page: the brand link home and the
/// three navigation links.
pub open spec fn nav_bar_v() -> NodeV {
    NodeV::Element {
        tag: "nav"@,
        classes: seq!["nav-wrapper"@, "red"@, "darken-3"@],
        attrs: Seq::empty(),
        children: seq![nav_inner_v()],
    }
}

/// The placeholder image on every card.
pub open spec fn card_img_v() -> NodeV {
    NodeV::Element {
        tag: "img"@,
        classes: Seq::empty(),
        attrs: seq![("src"@, "assets/pokeball.png"@), ("alt"@, "A Pokeball"@)],
        children: Seq::empty(),
    }
}

/// The styled title text of a card.
pub open spec fn card_span_v(p: PostV) -> NodeV {
    NodeV::Element {
        tag: "span"@,
        classes: seq!["card-title"@, "red-text"@],
        attrs: Seq::empty(),
        children: seq![NodeV::Text(p.title)],
    }
}

/// The title of a card, linked to the post's own page.
pub open spec fn card_link_v(p: PostV) -> NodeV {
    NodeV::Element {
        tag: "a"@,
        classes: Seq::empty(),
        attrs: seq![("href"@, "/posts/"@ + int_chars(p.id))],
        children: seq![card_span_v(p)],
    }
}

/// The body of a card, as plain text.
pub open spec fn card_para_v(p: PostV) -> NodeV {
    NodeV::Element {
        tag: "p"@,
        classes: Seq::empty(),
        attrs: Seq::empty(),
        children: seq![NodeV::Text(p.body)],
    }
}

/// The textual content of a card: linked title and body.
pub open spec fn card_content_v(p: PostV) -> NodeV {
    NodeV::Element {
        tag: "div"@,
        classes: seq!["card-content"@],
        attrs: Seq::empty(),
        children: seq![card_link_v(p), card_para_v(p)],
    }
}

/// One post card: the placeholder image, the title as a link to the
/// post's own page, and the body as plain text.
pub open spec fn card_v(p: PostV) -> NodeV {
    NodeV::Element {
        tag: "div"@,
        classes: seq!["post"@, "card"@],
        attrs: Seq::empty(),
        children: seq![card_img_v(), card_content_v(p)],
    }
}

/// The card list for a loaded, non-empty post list, one card per post,
/// in order.
pub open spec fn main_v(posts: Seq<PostV>) -> NodeV {
    NodeV::Element {
        tag: "div"@,
        classes: Seq::empty(),
        attrs: Seq::empty(),
        children: posts.map_values(|p: PostV| card_v(p)),
    }
}

/// The placeholder shown while nothing is loaded.
pub open spec fn no_posts_v() -> NodeV {
    NodeV::Element {
        tag: "div"@,
        classes: seq!["center"@],
        attrs: Seq::empty(),
        children: seq![NodeV::Text("No posts to show"@)],
    }
}

/// The posts a state shows.
pub open spec fn posts_of(state: StateV) -> Seq<PostV> {
    match state {
        StateV::Empty => Seq::empty(),
        StateV::Loaded(ps) => ps,
    }
}

/// The page heading.
pub open spec fn heading_v() -> NodeV {
    NodeV::Element {
        tag: "h4"@,
        classes: seq!["center"@],
        attrs: Seq::empty(),
        children: seq![NodeV::Text("Home"@)],
    }
}

/// The container with everything the state determines: the heading,
/// the navigation bar, then the cards — or the placeholder when there
/// is nothing to show.
pub open spec fn page_inner_v(state: StateV) -> NodeV {
    NodeV::Element {
        tag: "div"@,
        classes: seq!["container"@, "home"@],
        attrs: Seq::empty(),
        children: seq![
            heading_v(),
            nav_bar_v(),
            if posts_of(state).len() > 0 {
                main_v(posts_of(state))
            } else {
                no_posts_v()
            },
        ],
    }
}

/// The whole page for a state.
pub open spec fn page_v(state: StateV) -> NodeV {
    NodeV::Element {
        tag: "div"@,
        classes: seq!["App"@],
        attrs: Seq::empty(),
        children: seq![page_inner_v(state)],
    }
}

/// A text node for a literal.
fn text(s: &str) -> (n: Node)
    ensures
        n@ == NodeV::Text(s@),
{
    Node::Text(String::from_str(s))
}

/// An owned copy of a literal.
fn s_of(s: &str) -> (r: String)
    ensures
        r@ == s@,
{
    String::from_str(s)
}

/// Builds one navigation item.
fn nav_item(target: &str, label: &str) -> (n: Node)
    ensures
        n@ == nav_item_v(target@, label@),
{
    let mut link_attrs: Vec<(String, String)> = Vec::new();
    link_attrs.push((s_of("href"), s_of(target)));
    let mut link_children: Vec<Node> = Vec::new();
    link_children.push(text(label));
    let link = Node::Element {
        tag: s_of("a"),
        classes: Vec::new(),
        attrs: link_attrs,
        children: link_children,
    };
    proof {
        broadcast use lemma_nodes_view;

        assert(nodes_view(link_children@)[0] == node_view(link_children@[0]));
        assert(link@ =~~= NodeV::Element {
            tag: "a"@,
            classes: Seq::empty(),
            attrs: seq![("href"@, target@)],
            children: seq![NodeV::Text(label@)],
        });
    }
    let mut item_children: Vec<Node> = Vec::new();
    item_children.push(link);
    let n = Node::Element {
        tag: s_of("li"),
        classes: Vec::new(),
        attrs: Vec::new(),
        children: item_children,
    };
    proof {
        broadcast use lemma_nodes_view;

        assert(nodes_view(item_children@)[0] == node_view(item_children@[0]));
        assert(n@ =~~= nav_item_v(target@, label@));
    }
    n
}

/// Builds the navigation bar.
#[verifier::rlimit(100)]
pub fn render_nav_bar() -> (n: Node)
    ensures
        n@ == nav_bar_v(),
{
    let mut brand_classes: Vec<String> = Vec::new();
    brand_classes.push(s_of("brand-logo"));
    let mut brand_attrs: Vec<(String, String)> = Vec::new();
    brand_attrs.push((s_of("href"), s_of("/")));
    let mut brand_children: Vec<Node> = Vec::new();
    brand_children.push(text("Poke' Times"));
    let brand = Node::Element {
        tag: s_of("a"),
        classes: brand_classes,
        attrs: brand_attrs,
        children: brand_children,
    };
    proof {
        broadcast use lemma_nodes_view;

        assert(nodes_view(brand_children@)[0] == node_view(brand_children@[0]));
        assert(brand@ =~~= brand_v());
    }
    let mut list_classes: Vec<String> = Vec::new();
    list_classes.push(s_of("right"));
    let mut list_children: Vec<Node> = Vec::new();
    list_children.push(nav_item("/", "Home"));
    list_children.push(nav_item("/about", "About"));
    list_children.push(nav_item("/contact", "Contact"));
    let list = Node::Element {
        tag: s_of("ul"),
        classes: list_classes,
        attrs: Vec::new(),
        children: list_children,
    };
    proof {
        broadcast use lemma_nodes_view;

        assert(nodes_view(list_children@)[0] == node_view(list_children@[0]));
        assert(nodes_view(list_children@)[1] == node_view(list_children@[1]));
        assert(nodes_view(list_children@)[2] == node_view(list_children@[2]));
        assert(list@->Element_tag == nav_list_v()->Element_tag);
        assert(list@->Element_classes =~= nav_list_v()->Element_classes);
        assert(list@->Element_attrs =~= nav_list_v()->Element_attrs);
        assert(list@->Element_children =~= nav_list_v()->Element_children);
        assert(list@ =~~= nav_list_v());
    }
    let mut inner_classes: Vec<String> = Vec::new();
    inner_classes.push(s_of("container"));
    let mut inner_children: Vec<Node> = Vec::new();
    inner_children.push(brand);
    inner_children.push(list);
    let inner = Node::Element {
        tag: s_of("div"),
        classes: inner_classes,
        attrs: Vec::new(),
        children: inner_children,
    };
    proof {
        broadcast use lemma_nodes_view;

        assert(nodes_view(inner_children@)[0] == node_view(inner_children@[0]));
        assert(nodes_view(inner_children@)[1] == node_view(inner_children@[1]));
        assert(inner@->Element_tag == nav_inner_v()->Element_tag);
        assert(inner@->Element_classes =~= nav_inner_v()->Element_classes);
        assert(inner@->Element_attrs =~= nav_inner_v()->Element_attrs);
        assert(inner@->Element_children =~= nav_inner_v()->Element_children);
        assert(inner@ =~~= nav_inner_v());
    }
    let mut nav_classes: Vec<String> = Vec::new();
    nav_classes.push(s_of("nav-wrapper"));
    nav_classes.push(s_of("red"));
    nav_classes.push(s_of("darken-3"));
    let mut nav_children: Vec<Node> = Vec::new();
    nav_children.push(inner);
    let n = Node::Element {
        tag: s_of("nav"),
        classes: nav_classes,
        attrs: Vec::new(),
        children: nav_children,
    };
    proof {
        broadcast use lemma_nodes_view;

        assert(nodes_view(nav_children@)[0] == node_view(nav_children@[0]));
        assert(n@ =~~= nav_bar_v());
    }
    n
}

/// Builds one post card.
#[verifier::rlimit(100)]
fn render_card(p: &Post) -> (n: Node)
    ensures
        n@ == card_v(p@),
{
    let mut img_attrs: Vec<(String, String)> = Vec::new();
    img_attrs.push((s_of("src"), s_of("assets/pokeball.png")));
    img_attrs.push((s_of("alt"), s_of("A Pokeball")));
    let img = Node::Element {
        tag: s_of("img"),
        classes: Vec::new(),
        attrs: img_attrs,
        children: Vec::new(),
    };
    proof {
        broadcast use lemma_nodes_view;

        assert(img@ =~~= card_img_v());
    }
    let mut span_classes: Vec<String> = Vec::new();
    span_classes.push(s_of("card-title"));
    span_classes.push(s_of("red-text"));
    let mut span_children: Vec<Node> = Vec::new();
    span_children.push(Node::Text(p.title.clone()));
    let span = Node::Element {
        tag: s_of("span"),
        classes: span_classes,
        attrs: Vec::new(),
        children: span_children,
    };
    proof {
        broadcast use lemma_nodes_view;

        assert(nodes_view(span_children@)[0] == node_view(span_children@[0]));
        assert(span@ =~~= card_span_v(p@));
    }
    let mut href = s_of("/posts/");
    append_i32(&mut href, p.id);
    let mut link_attrs: Vec<(String, String)> = Vec::new();
    link_attrs.push((s_of("href"), href));
    let mut link_children: Vec<Node> = Vec::new();
    link_children.push(span);
    let link = Node::Element {
        tag: s_of("a"),
        classes: Vec::new(),
        attrs: link_attrs,
        children: link_children,
    };
    proof {
        broadcast use lemma_nodes_view;

        assert(nodes_view(link_children@)[0] == node_view(link_children@[0]));
        assert(link@ =~~= card_link_v(p@));
    }
    let mut para_children: Vec<Node> = Vec::new();
    para_children.push(Node::Text(p.body.clone()));
    let para = Node::Element {
        tag: s_of("p"),
        classes: Vec::new(),
        attrs: Vec::new(),
        children: para_children,
    };
    let mut content_classes: Vec<String> = Vec::new();
    content_classes.push(s_of("card-content"));
    let mut content_children: Vec<Node> = Vec::new();
    content_children.push(link);
    content_children.push(para);
    proof {
        broadcast use lemma_nodes_view;

        assert(nodes_view(para_children@)[0] == node_view(para_children@[0]));
        assert(para@ =~~= card_para_v(p@));
    }
    let content = Node::Element {
        tag: s_of("div"),
        classes: content_classes,
        attrs: Vec::new(),
        children: content_children,
    };
    proof {
        broadcast use lemma_nodes_view;

        assert(nodes_view(content_children@)[0] == node_view(content_children@[0]));
        assert(nodes_view(content_children@)[1] == node_view(content_children@[1]));
        assert(content@->Element_tag == card_content_v(p@)->Element_tag);
        assert(content@->Element_classes =~= card_content_v(p@)->Element_classes);
        assert(content@->Element_attrs =~= card_content_v(p@)->Element_attrs);
        assert(content@->Element_children =~= card_content_v(p@)->Element_children);
        assert(content@ =~~= card_content_v(p@));
    }
    let mut card_classes: Vec<String> = Vec::new();
    card_classes.push(s_of("post"));
    card_classes.push(s_of("card"));
    let mut card_children: Vec<Node> = Vec::new();
    card_children.push(img);
    card_children.push(content);
    let n = Node::Element {
        tag: s_of("div"),
        classes: card_classes,
        attrs: Vec::new(),
        children: card_children,
    };
    proof {
        broadcast use lemma_nodes_view;

        assert(nodes_view(card_children@)[0] == node_view(card_children@[0]));
        assert(nodes_view(card_children@)[1] == node_view(card_children@[1]));
        assert(n@->Element_tag == card_v(p@)->Element_tag);
        assert(n@->Element_classes =~= card_v(p@)->Element_classes);
        assert(n@->Element_attrs =~= card_v(p@)->Element_attrs);
        assert(n@->Element_children =~= card_v(p@)->Element_children);
        assert(n@ =~~= card_v(p@));
    }
    n
}

/// Builds the card list for a non-empty post list.
pub fn render_main(posts: &Vec<Post>) -> (n: Node)
    ensures
        n@ == main_v(posts.deep_view()),
{
    let mut cards: Vec<Node> = Vec::new();
    let mut i: usize = 0;
    while i < posts.len()
        invariant
            0 <= i <= posts.len(),
            cards.len() == i,
            forall|m: int| 0 <= m < i ==> cards[m]@ == card_v(posts.deep_view()[m]),
        decreases posts.len() - i,
    {
        let card = render_card(&posts[i]);
        cards.push(card);
        i += 1;
    }
    let n = Node::Element {
        tag: s_of("div"),
        classes: Vec::new(),
        attrs: Vec::new(),
        children: cards,
    };
    proof {
        broadcast use lemma_nodes_view;

        let ps = posts.deep_view();
        assert forall|m: int| 0 <= m < ps.len() implies nodes_view(cards@)[m] == card_v(
            ps[m],
        ) by {
            assert(nodes_view(cards@)[m] == node_view(cards@[m]));
        }
        assert(nodes_view(cards@) =~= ps.map_values(|p: PostV| card_v(p)));
        assert(n@ =~~= main_v(ps));
    }
    n
}

/// Builds the placeholder shown while nothing is loaded.
fn render_no_posts() -> (n: Node)
    ensures
        n@ == no_posts_v(),
{
    let mut classes: Vec<String> = Vec::new();
    classes.push(s_of("center"));
    let mut children: Vec<Node> = Vec::new();
    children.push(text("No posts to show"));
    let n = Node::Element {
        tag: s_of("div"),
        classes,
        attrs: Vec::new(),
        children,
    };
    proof {
        broadcast use lemma_nodes_view;

        assert(nodes_view(children@)[0] == node_view(children@[0]));
        assert(n@ =~~= no_posts_v());
    }
    n
}

/// Derives the page for a state: a pure function of the state, so the
/// same state always yields the same tree.
#[verifier::rlimit(100)]
pub fn render(state: &AppState) -> (n: Node)
    ensures
        n@ == page_v(state@),
{
    let heading_children_text = text("Home");
    let mut heading_classes: Vec<String> = Vec::new();
    heading_classes.push(s_of("center"));
    let mut heading_children: Vec<Node> = Vec::new();
    heading_children.push(heading_children_text);
    let heading = Node::Element {
        tag: s_of("h4"),
        classes: heading_classes,
        attrs: Vec::new(),
        children: heading_children,
    };
    proof {
        broadcast use lemma_nodes_view;

        assert(nodes_view(heading_children@)[0] == node_view(heading_children@[0]));
        assert(heading@ =~~= heading_v());
    }
    let nav = render_nav_bar();
    let third: Node = match state {
        AppState::Empty => render_no_posts(),
        AppState::Loaded(posts) => {
            if posts.len() > 0 {
                render_main(posts)
            } else {
                proof {
                    assert(posts.deep_view().len() == 0);
                }
                render_no_posts()
            }
        },
    };
    let mut inner_classes: Vec<String> = Vec::new();
    inner_classes.push(s_of("container"));
    inner_classes.push(s_of("home"));
    let mut inner_children: Vec<Node> = Vec::new();
    inner_children.push(heading);
    inner_children.push(nav);
    inner_children.push(third);
    let inner = Node::Element {
        tag: s_of("div"),
        classes: inner_classes,
        attrs: Vec::new(),
        children: inner_children,
    };
    proof {
        broadcast use lemma_nodes_view;

        assert(nodes_view(inner_children@)[0] == node_view(inner_children@[0]));
        assert(nodes_view(inner_children@)[1] == node_view(inner_children@[1]));
        assert(nodes_view(inner_children@)[2] == node_view(inner_children@[2]));
        assert(inner@->Element_tag == page_inner_v(state@)->Element_tag);
        assert(inner@->Element_classes =~= page_inner_v(state@)->Element_classes);
        assert(inner@->Element_attrs =~= page_inner_v(state@)->Element_attrs);
        assert(inner@->Element_children =~= page_inner_v(state@)->Element_children);
        assert(inner@ =~~= page_inner_v(state@));
    }
    let mut outer_classes: Vec<String> = Vec::new();
    outer_classes.push(s_of("App"));
    let mut outer_children: Vec<Node> = Vec::new();
    outer_children.push(inner);
    let n = Node::Element {
        tag: s_of("div"),
        classes: outer_classes,
        attrs: Vec::new(),
        children: outer_children,
    };
    proof {
        broadcast use lemma_nodes_view;

        assert(nodes_view(outer_children@)[0] == node_view(outer_children@[0]));
        assert(n@ =~~= page_v(state@));
    }
    n
}

/// Law: the page is determined by the posts a state shows, and by
/// nothing else about the state.
pub proof fn lemma_page_depends_on_posts_only(s1: StateV, s2: StateV)
    requires
        posts_of(s1) == posts_of(s2),
    ensures
        page_v(s1) == page_v(s2),
{
    assert(page_v(s1) =~~= page_v(s2));
}

/// Law: a loaded but empty list renders exactly as the initial state.
pub proof fn lemma_loaded_empty_renders_as_empty()
    ensures
        page_v(StateV::Loaded(Seq::empty())) == page_v(StateV::Empty),
{
    assert(posts_of(StateV::Loaded(Seq::empty())) =~= posts_of(StateV::Empty));
    lemma_page_depends_on_posts_only(StateV::Loaded(Seq::empty()), StateV::Empty);
}

} // verus!
