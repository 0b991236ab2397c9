use poke_times::codec::decode_posts;
use poke_times::codec::encode_posts;
use poke_times::render::render;
use poke_times::render::Node;
use poke_times::store::init;
use poke_times::store::update;
use poke_times::store::AppState;
use poke_times::store::Msg;
use poke_times::store::Post;

fn post(id: i32, author_id: i32, title: &str, body: &str) -> Post {
    Post { id, author_id, title: title.to_string(), body: body.to_string() }
}

fn page_children(tree: &Node) -> &Vec<Node> {
    let Node::Element { children: outer, .. } = tree else { panic!("expected an element") };
    let Node::Element { children: inner, .. } = &outer[0] else { panic!("expected an element") };
    inner
}

#[test]
fn initial_state_is_empty() {
    assert_eq!(init(), AppState::Empty);
}

#[test]
fn render_empty_shows_placeholder() {
    let tree = render(&AppState::Empty);
    let inner = page_children(&tree);
    assert_eq!(inner.len(), 3);
    let Node::Element { classes, children, .. } = &inner[2] else { panic!("expected an element") };
    assert_eq!(classes, &vec!["center".to_string()]);
    let Node::Text(msg) = &children[0] else { panic!("expected text") };
    assert_eq!(msg, "No posts to show");
}

#[test]
fn render_empty_shows_nav_links() {
    let tree = render(&AppState::Empty);
    let inner = page_children(&tree);
    let Node::Element { children: nav_children, .. } = &inner[1] else { panic!("expected nav") };
    let Node::Element { children: nav_inner, .. } = &nav_children[0] else { panic!("expected div") };
    let Node::Element { attrs: brand_attrs, .. } = &nav_inner[0] else { panic!("expected link") };
    assert_eq!(brand_attrs[0], ("href".to_string(), "/".to_string()));
    let Node::Element { children: items, .. } = &nav_inner[1] else { panic!("expected list") };
    let mut targets: Vec<String> = Vec::new();
    let mut labels: Vec<String> = Vec::new();
    for item in items {
        let Node::Element { children: item_children, .. } = item else { panic!("expected item") };
        let Node::Element { attrs, children: link_children, .. } = &item_children[0] else {
            panic!("expected link")
        };
        targets.push(attrs[0].1.clone());
        let Node::Text(label) = &link_children[0] else { panic!("expected text") };
        labels.push(label.clone());
    }
    assert_eq!(targets, vec!["/".to_string(), "/about".to_string(), "/contact".to_string()]);
    assert_eq!(labels, vec!["Home".to_string(), "About".to_string(), "Contact".to_string()]);
}

#[test]
fn render_loaded_empty_equals_render_empty() {
    let loaded = render(&AppState::Loaded(vec![]));
    let empty = render(&AppState::Empty);
    assert_eq!(loaded, empty);
}

#[test]
fn render_is_deterministic() {
    let state = AppState::Loaded(vec![post(1, 1, "T", "B")]);
    assert_eq!(render(&state), render(&state));
}

#[test]
fn render_one_post_makes_one_card() {
    let tree = render(&AppState::Loaded(vec![post(1, 1, "T", "B")]));
    let inner = page_children(&tree);
    let Node::Element { children: cards, .. } = &inner[2] else { panic!("expected card list") };
    assert_eq!(cards.len(), 1);
    let Node::Element { classes, children: card_children, .. } = &cards[0] else {
        panic!("expected card")
    };
    assert_eq!(classes, &vec!["post".to_string(), "card".to_string()]);
    let Node::Element { children: content, .. } = &card_children[1] else {
        panic!("expected content")
    };
    let Node::Element { attrs: link_attrs, children: link_children, .. } = &content[0] else {
        panic!("expected link")
    };
    assert_eq!(link_attrs[0], ("href".to_string(), "/posts/1".to_string()));
    let Node::Element { children: span_children, .. } = &link_children[0] else {
        panic!("expected span")
    };
    let Node::Text(title) = &span_children[0] else { panic!("expected text") };
    assert_eq!(title, "T");
    let Node::Element { children: para_children, .. } = &content[1] else {
        panic!("expected paragraph")
    };
    let Node::Text(body) = &para_children[0] else { panic!("expected text") };
    assert_eq!(body, "B");
}

#[test]
fn render_negative_id_link() {
    let tree = render(&AppState::Loaded(vec![post(-7, 1, "T", "B")]));
    let inner = page_children(&tree);
    let Node::Element { children: cards, .. } = &inner[2] else { panic!("expected card list") };
    let Node::Element { children: card_children, .. } = &cards[0] else { panic!("expected card") };
    let Node::Element { children: content, .. } = &card_children[1] else {
        panic!("expected content")
    };
    let Node::Element { attrs: link_attrs, .. } = &content[0] else { panic!("expected link") };
    assert_eq!(link_attrs[0], ("href".to_string(), "/posts/-7".to_string()));
}

#[test]
fn render_keeps_post_order() {
    let tree = render(&AppState::Loaded(vec![post(1, 1, "first", "a"), post(2, 1, "second", "b")]));
    let inner = page_children(&tree);
    let Node::Element { children: cards, .. } = &inner[2] else { panic!("expected card list") };
    assert_eq!(cards.len(), 2);
    let mut hrefs: Vec<String> = Vec::new();
    for card in cards {
        let Node::Element { children: card_children, .. } = card else { panic!("expected card") };
        let Node::Element { children: content, .. } = &card_children[1] else {
            panic!("expected content")
        };
        let Node::Element { attrs, .. } = &content[0] else { panic!("expected link") };
        hrefs.push(attrs[0].1.clone());
    }
    assert_eq!(hrefs, vec!["/posts/1".to_string(), "/posts/2".to_string()]);
}

#[test]
fn posts_received_replaces_empty_state() {
    let mut state = AppState::Empty;
    update(Msg::PostsReceived(vec![post(1, 2, "T", "B")]), &mut state);
    assert_eq!(state, AppState::Loaded(vec![post(1, 2, "T", "B")]));
}

#[test]
fn posts_received_replaces_loaded_state() {
    let mut state = AppState::Loaded(vec![post(1, 1, "old", "old")]);
    update(Msg::PostsReceived(vec![post(9, 9, "new", "new")]), &mut state);
    assert_eq!(state, AppState::Loaded(vec![post(9, 9, "new", "new")]));
}

#[test]
fn posts_received_empty_list_loads_empty() {
    let mut state = AppState::Loaded(vec![post(1, 1, "old", "old")]);
    update(Msg::PostsReceived(vec![]), &mut state);
    assert_eq!(state, AppState::Loaded(vec![]));
}

#[test]
fn view_post_is_a_noop() {
    let mut state = AppState::Empty;
    update(Msg::ViewPost(1), &mut state);
    assert_eq!(state, AppState::Empty);
    let mut loaded = AppState::Loaded(vec![post(1, 1, "T", "B")]);
    update(Msg::ViewPost(1), &mut loaded);
    assert_eq!(loaded, AppState::Loaded(vec![post(1, 1, "T", "B")]));
}

#[test]
fn delete_post_is_a_noop() {
    let mut state = AppState::Empty;
    update(Msg::DeletePost(3), &mut state);
    assert_eq!(state, AppState::Empty);
    let mut loaded = AppState::Loaded(vec![post(1, 1, "T", "B")]);
    update(Msg::DeletePost(1), &mut loaded);
    assert_eq!(loaded, AppState::Loaded(vec![post(1, 1, "T", "B")]));
}

#[test]
fn encode_one_post_exactly() {
    let encoded = encode_posts(&vec![post(1, 2, "T", "B")]);
    assert_eq!(encoded, "[{\"id\":1,\"userId\":2,\"title\":\"T\",\"body\":\"B\"}]");
}

#[test]
fn encode_empty_list_exactly() {
    assert_eq!(encode_posts(&vec![]), "[]");
}

#[test]
fn encode_escapes_specials() {
    let encoded = encode_posts(&vec![post(1, 1, "a\"b", "c\\d\ne\tf\rg")]);
    assert_eq!(
        encoded,
        "[{\"id\":1,\"userId\":1,\"title\":\"a\\\"b\",\"body\":\"c\\\\d\\ne\\tf\\rg\"}]"
    );
}

#[test]
fn decode_one_post_exactly() {
    let decoded = decode_posts("[{\"id\":1,\"userId\":2,\"title\":\"T\",\"body\":\"B\"}]");
    assert_eq!(decoded, Some(vec![post(1, 2, "T", "B")]));
}

#[test]
fn decode_empty_array() {
    assert_eq!(decode_posts("[]"), Some(vec![]));
}

#[test]
fn decode_recovers_what_encode_wrote() {
    let posts = vec![
        post(1, 1, "T", "B"),
        post(-7, 42, "a\"b\\c", "line\nbreak\ttab\rreturn"),
        post(i32::MAX, i32::MIN, "", "edge"),
        post(0, 0, "zero", ""),
    ];
    let encoded = encode_posts(&posts);
    assert_eq!(decode_posts(&encoded), Some(posts));
}

#[test]
fn decode_many_preserves_count_and_order() {
    let mut posts = Vec::new();
    for i in 0..25 {
        posts.push(post(i, i + 1, &format!("title {}", i), &format!("body {}", i)));
    }
    let encoded = encode_posts(&posts);
    assert_eq!(decode_posts(&encoded), Some(posts));
}

#[test]
fn decode_rejects_malformed_input() {
    assert_eq!(decode_posts(""), None);
    assert_eq!(decode_posts("["), None);
    assert_eq!(decode_posts("[]x"), None);
    assert_eq!(decode_posts("{}"), None);
    assert_eq!(decode_posts("[{}]"), None);
    assert_eq!(decode_posts("[ ]"), None);
    assert_eq!(decode_posts("[{\"id\":1,\"userId\":2,\"title\":\"T\",\"body\":\"B\"}"), None);
    assert_eq!(decode_posts("[{\"id\":1,\"userId\":2,\"title\":\"T\",\"body\":\"B\"}]]"), None);
}

#[test]
fn decode_rejects_wrong_keys_and_order() {
    assert_eq!(decode_posts("[{\"userId\":2,\"id\":1,\"title\":\"T\",\"body\":\"B\"}]"), None);
    assert_eq!(decode_posts("[{\"id\":1,\"userId\":2,\"body\":\"B\",\"title\":\"T\"}]"), None);
}

#[test]
fn decode_rejects_bad_numbers() {
    assert_eq!(decode_posts("[{\"id\":01,\"userId\":2,\"title\":\"T\",\"body\":\"B\"}]"), None);
    assert_eq!(decode_posts("[{\"id\":-0,\"userId\":2,\"title\":\"T\",\"body\":\"B\"}]"), None);
    assert_eq!(
        decode_posts("[{\"id\":2147483648,\"userId\":2,\"title\":\"T\",\"body\":\"B\"}]"),
        None
    );
    assert_eq!(
        decode_posts("[{\"id\":-2147483649,\"userId\":2,\"title\":\"T\",\"body\":\"B\"}]"),
        None
    );
    assert_eq!(decode_posts("[{\"id\":,\"userId\":2,\"title\":\"T\",\"body\":\"B\"}]"), None);
}

#[test]
fn decode_accepts_extreme_ids() {
    let wire = "[{\"id\":2147483647,\"userId\":-2147483648,\"title\":\"T\",\"body\":\"B\"}]";
    assert_eq!(decode_posts(wire), Some(vec![post(i32::MAX, i32::MIN, "T", "B")]));
}

#[test]
fn decode_rejects_bad_strings() {
    assert_eq!(decode_posts("[{\"id\":1,\"userId\":2,\"title\":\"T\\q\",\"body\":\"B\"}]"), None);
    assert_eq!(decode_posts("[{\"id\":1,\"userId\":2,\"title\":\"T\n\",\"body\":\"B\"}]"), None);
    assert_eq!(decode_posts("[{\"id\":1,\"userId\":2,\"title\":\"T,\"body\":\"B\"}]"), None);
}
