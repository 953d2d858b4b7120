use sha2::Digest;
use vurze::discovery::{definition_names, function_names, kind_in};
use vurze::embed::{embed_markers, mark_node, mark_node_from_text, strip_markers, TransformError};
use vurze::marker::{filter_markers, is_marker, marker_name, marker_prefix, starts_with, with_marker};
use vurze::syntax::{Decorator, Node, NodeKind};

fn name(s: &str) -> Decorator {
    Decorator::SimpleName(s.to_string())
}

fn complex(s: &str) -> Decorator {
    Decorator::Complex(s.to_string())
}

fn node(kind: NodeKind, n: Option<&str>, ds: Option<Vec<Decorator>>) -> Node {
    Node { kind, name: n.map(|s| s.to_string()), decorators: ds }
}

fn sha(text: &str) -> String {
    format!("{:x}", sha2::Sha256::digest(text.as_bytes()))
}

/// The walk of `def f(): pass`, `async def g(): pass`, `class C: pass`, `x = 1`.
fn sample_walk() -> Vec<Node> {
    vec![
        node(NodeKind::Other, None, None),
        node(NodeKind::Function, Some("f"), Some(vec![])),
        node(NodeKind::AsyncFunction, Some("g"), Some(vec![])),
        node(NodeKind::Class, Some("C"), Some(vec![])),
        node(NodeKind::Other, None, None),
        node(NodeKind::Other, None, None),
    ]
}

#[test]
fn names_of_functions_in_walk_order() {
    assert_eq!(function_names(&sample_walk()), vec!["f".to_string(), "g".to_string()]);
}

#[test]
fn names_of_chosen_kinds() {
    let kinds = vec![NodeKind::Class, NodeKind::Function];
    assert_eq!(definition_names(&sample_walk(), &kinds), vec!["f".to_string(), "C".to_string()]);
    assert_eq!(definition_names(&sample_walk(), &vec![]), Vec::<String>::new());
    assert_eq!(function_names(&vec![]), Vec::<String>::new());
}

#[test]
fn nameless_definition_is_passed_over() {
    let walk = vec![
        node(NodeKind::Function, None, Some(vec![])),
        node(NodeKind::Function, Some("h"), Some(vec![])),
    ];
    assert_eq!(function_names(&walk), vec!["h".to_string()]);
}

#[test]
fn kind_membership() {
    let kinds = vec![NodeKind::Function, NodeKind::AsyncFunction];
    assert!(kind_in(NodeKind::AsyncFunction, &kinds));
    assert!(!kind_in(NodeKind::Class, &kinds));
    assert!(!kind_in(NodeKind::Function, &vec![]));
}

#[test]
fn prefix_tests() {
    assert!(starts_with("verified_abc", "verified_"));
    assert!(starts_with("abc", ""));
    assert!(starts_with("", ""));
    assert!(!starts_with("verified", "verified_"));
    assert!(!starts_with("other", "verified_"));
    assert!(starts_with("verified_", "verified_"));
}

#[test]
fn markers_are_bare_names_with_prefix() {
    assert!(is_marker(&name("verified_abc"), "verified_"));
    assert!(!is_marker(&name("other"), "verified_"));
    assert!(!is_marker(&complex("verified_abc(1)"), "verified_"));
    assert!(!is_marker(&complex("pkg.verified_abc"), "verified_"));
}

#[test]
fn filter_drops_stale_markers_only() {
    let ds = vec![name("verified_abc"), name("other"), name("verified_def"), name("staticmethod")];
    assert_eq!(filter_markers(&ds, "verified_"), vec![name("other"), name("staticmethod")]);
    assert_eq!(filter_markers(&vec![], "verified_"), vec![]);
}

#[test]
fn canonical_list_ignores_markers() {
    let with = vec![name("verified_abc"), name("other")];
    let without = vec![name("other")];
    assert_eq!(filter_markers(&with, "verified_"), filter_markers(&without, "verified_"));
    assert_eq!(filter_markers(&with, "verified_"), without);
}

#[test]
fn complex_decorators_are_kept() {
    let ds = vec![complex("verified_abc(1)"), complex("pkg.verified_abc"), name("verified_x")];
    assert_eq!(
        filter_markers(&ds, "verified_"),
        vec![complex("verified_abc(1)"), complex("pkg.verified_abc")]
    );
}

#[test]
fn marker_identifier() {
    assert_eq!(marker_name("verified", "abc"), "verified_abc".to_string());
    assert_eq!(marker_name("sig", ""), "sig_".to_string());
}

#[test]
fn unmarked_function_gets_marker_first() {
    let ds = vec![name("staticmethod"), complex("cache(3)")];
    let r = with_marker(&ds, "verified", "verified_", "d1");
    assert_eq!(r, vec![name("verified_d1"), name("staticmethod"), complex("cache(3)")]);
}

#[test]
fn marking_twice_keeps_one_marker() {
    let ds = vec![name("verified_old"), name("other"), name("verified_older")];
    let once = with_marker(&ds, "verified", "verified_", "d1");
    let twice = with_marker(&once, "verified", "verified_", "d1");
    assert_eq!(once, vec![name("verified_d1"), name("other")]);
    assert_eq!(twice, once);
    assert_eq!(filter_markers(&once, "verified_"), filter_markers(&ds, "verified_"));
}

#[test]
fn mark_node_rewrites_decorators_only() {
    let mut n = node(NodeKind::Class, Some("C"), Some(vec![name("verified_x"), name("dataclass")]));
    mark_node(&mut n, "verified", "verified_", "abc");
    assert_eq!(
        n,
        node(NodeKind::Class, Some("C"), Some(vec![name("verified_abc"), name("dataclass")]))
    );
}

#[test]
fn marker_uses_digest_of_canonical_text() {
    let text = "def f():\n    pass";
    let mut n = node(NodeKind::Function, Some("f"), Some(vec![]));
    mark_node_from_text(&mut n, "verified", "verified_", text);
    let expected = format!("verified_{}", sha(text));
    assert_ne!(expected, format!("verified_{}", text));
    assert_eq!(n.decorators, Some(vec![Decorator::SimpleName(expected)]));
}

#[test]
fn strip_markers_from_every_node() {
    let mut walk = vec![
        node(NodeKind::Class, Some("C"), Some(vec![name("sig_1"), name("keep")])),
        node(NodeKind::Other, None, None),
        node(NodeKind::Function, Some("m"), Some(vec![name("sig_2")])),
    ];
    strip_markers(&mut walk, "sig_");
    assert_eq!(
        walk,
        vec![
            node(NodeKind::Class, Some("C"), Some(vec![name("keep")])),
            node(NodeKind::Other, None, None),
            node(NodeKind::Function, Some("m"), Some(vec![])),
        ]
    );
}

#[test]
fn class_with_method_scenario() {
    let method_text = "def m(self):\n    return 1";
    let class_text = "class C:\n\n    def m(self):\n        return 1";
    let mut walk = vec![
        node(NodeKind::Other, None, None),
        node(NodeKind::Class, Some("C"), Some(vec![])),
        node(NodeKind::Function, Some("m"), Some(vec![])),
        node(NodeKind::Other, None, None),
    ];
    let texts = vec![None, Some(class_text.to_string()), Some(method_text.to_string()), None];
    assert_eq!(embed_markers(&mut walk, "sig", "sig_", &texts), Ok(()));
    assert_eq!(walk[2].decorators, Some(vec![Decorator::SimpleName(format!("sig_{}", sha(method_text)))]));
    assert_eq!(walk[1].decorators, Some(vec![Decorator::SimpleName(format!("sig_{}", sha(class_text)))]));
    assert_eq!(walk[0], node(NodeKind::Other, None, None));
    let once = walk.clone();
    assert_eq!(embed_markers(&mut walk, "sig", "sig_", &texts), Ok(()));
    assert_eq!(walk, once);
}

#[test]
fn missing_canonical_text_fails_the_run() {
    let mut walk = vec![
        node(NodeKind::Function, Some("a"), Some(vec![name("sig_old")])),
        node(NodeKind::Function, Some("b"), Some(vec![])),
        node(NodeKind::Function, Some("c"), Some(vec![])),
    ];
    let before = walk.clone();
    let texts = vec![Some("def a():\n    pass".to_string()), None];
    assert_eq!(embed_markers(&mut walk, "sig", "sig_", &texts), Err(TransformError { index: 1 }));
    assert_eq!(walk, before);
}

#[test]
fn nodes_without_decorator_list_are_skipped() {
    let mut walk = vec![
        node(NodeKind::Function, Some("a"), None),
        node(NodeKind::Other, None, Some(vec![name("sig_x")])),
    ];
    let before = walk.clone();
    assert_eq!(embed_markers(&mut walk, "sig", "sig_", &vec![]), Ok(()));
    assert_eq!(walk, before);
}

#[test]
fn prefix_from_base_name() {
    assert_eq!(marker_prefix("verified"), "verified_".to_string());
    assert!(starts_with(&marker_name("verified", "abc"), &marker_prefix("verified")));
    assert!(!starts_with("verifiedabc", &marker_prefix("verified")));
}
