use lumi_ui::tree::{ElementBuilder, ElementKind, ElementTree, ROOT_IDENTIFIER};

#[derive(Debug, Clone, Copy, PartialEq)]
enum Kind {
    Rect,
    Label,
    Win,
}

#[test]
fn remove_middle_child_keeps_first_and_third_in_order() {
    let mut t: ElementTree<Kind> = ElementTree::new();
    let root = t.root();
    let parent = t.child(root, Kind::Rect);
    let a = t.child(parent, Kind::Rect);
    let b = t.child(parent, Kind::Label);
    let c = t.child(parent, Kind::Rect);
    let (ia, ic) = (t.identifier_of(a), t.identifier_of(c));
    t.remove(b);
    let left: Vec<u64> = t.children_of(parent).iter().map(|&e| t.identifier_of(e)).collect();
    assert_eq!(left, vec![ia, ic]);
}

#[test]
fn remove_twice_is_silent() {
    let mut t: ElementTree<Kind> = ElementTree::new();
    let root = t.root();
    let a = t.child(root, Kind::Rect);
    let b = t.child(root, Kind::Rect);
    t.remove(a);
    t.remove(a);
    assert_eq!(t.children_of(root), vec![b]);
}

#[test]
fn root_is_never_removed() {
    let mut t: ElementTree<Kind> = ElementTree::new();
    let root = t.root();
    let a = t.child(root, Kind::Rect);
    t.remove(root);
    assert_eq!(t.children_of(root), vec![a]);
    assert_eq!(t.identifier_of(root), ROOT_IDENTIFIER);
    assert_eq!(t.kind_of(root), ElementKind::Root);
}

#[test]
fn identifiers_are_distinct() {
    let mut t: ElementTree<Kind> = ElementTree::new();
    let root = t.root();
    let mut ids = vec![t.identifier_of(root)];
    for _ in 0..50 {
        let e = t.child(root, Kind::Rect);
        ids.push(t.identifier_of(e));
    }
    let mut sorted = ids.clone();
    sorted.sort();
    sorted.dedup();
    assert_eq!(sorted.len(), ids.len());
}

#[test]
fn build_children_mirrors_description() {
    let mut b: ElementBuilder<Kind> = ElementBuilder::root();
    let r = b.root_ref();
    let w = b.child_window(r, Kind::Win);
    let x = b.child_widget(w, Kind::Rect);
    let _y = b.child_widget(x, Kind::Label);
    let _z = b.child_widget(w, Kind::Label);
    assert_eq!(b.count(), 5);

    let mut t: ElementTree<Kind> = ElementTree::new();
    let root = t.root();
    let tops = t.build_children(root, b);
    assert_eq!(tops.len(), 1);
    let win = tops[0];
    assert_eq!(t.kind_of(win), ElementKind::Window);
    assert_eq!(t.widget_of(win), Some(Kind::Win));
    assert_eq!(t.parent_of(win), Some(root));
    let under = t.children_of(win);
    assert_eq!(under.len(), 2);
    assert_eq!(t.widget_of(under[0]), Some(Kind::Rect));
    assert_eq!(t.widget_of(under[1]), Some(Kind::Label));
    let deep = t.children_of(under[0]);
    assert_eq!(deep.len(), 1);
    assert_eq!(t.widget_of(deep[0]), Some(Kind::Label));
    assert_eq!(t.get_window(deep[0]), Some(win));
    assert_eq!(t.get_window(root), None);
    assert_eq!(t.children_of(root), vec![win]);
}

fn describe(flag: bool) -> ElementBuilder<Kind> {
    let mut b = ElementBuilder::root();
    let r = b.root_ref();
    b.child_widget(r, if flag { Kind::Rect } else { Kind::Label });
    b
}

#[test]
fn dynamic_rebuild_replaces_wholesale() {
    let mut t: ElementTree<Kind> = ElementTree::new();
    let root = t.root();
    let before = t.child(root, Kind::Rect);
    let d = t.dynamic_child(root);
    let after = t.child(root, Kind::Rect);
    let d_id = t.identifier_of(d);

    t.rebuild_dynamic(d, describe(true));
    let first = t.children_of(d);
    assert_eq!(first.len(), 1);
    assert_eq!(t.widget_of(first[0]), Some(Kind::Rect));
    let first_id = t.identifier_of(first[0]);

    let old = t.rebuild_dynamic(d, describe(false));
    assert_eq!(old, first);
    let second = t.children_of(d);
    assert_eq!(t.widget_of(second[0]), Some(Kind::Label));

    let old = t.rebuild_dynamic(d, describe(true));
    assert_eq!(old, second);
    let third = t.children_of(d);
    assert_eq!(third.len(), 1);
    assert_eq!(t.widget_of(third[0]), Some(Kind::Rect));
    assert_eq!(t.kind_of(third[0]), ElementKind::Widget);
    assert_ne!(t.identifier_of(third[0]), first_id);
    assert_ne!(t.identifier_of(third[0]), t.identifier_of(second[0]));

    assert_eq!(t.identifier_of(d), d_id);
    assert_eq!(t.children_of(root), vec![before, d, after]);
}

#[test]
fn builder_child_attaches_whole_description() {
    let mut inner: ElementBuilder<Kind> = ElementBuilder::root();
    let ir = inner.root_ref();
    let x = inner.child_widget(ir, Kind::Rect);
    inner.child_widget(x, Kind::Label);
    inner.child_widget(ir, Kind::Label);

    let mut outer: ElementBuilder<Kind> = ElementBuilder::root();
    let or = outer.root_ref();
    let w = outer.child_window(or, Kind::Win);
    let tops = outer.child(w, inner);
    assert_eq!(tops.len(), 2);
    assert_eq!(outer.count(), 5);

    let mut t: ElementTree<Kind> = ElementTree::new();
    let root = t.root();
    let built = t.build_children(root, outer);
    let win = built[0];
    let kids = t.children_of(win);
    assert_eq!(kids.len(), 2);
    assert_eq!(t.widget_of(kids[0]), Some(Kind::Rect));
    assert_eq!(t.widget_of(kids[1]), Some(Kind::Label));
    assert_eq!(t.children_of(kids[0]).len(), 1);
}

#[test]
fn render_and_windows_traversal() {
    let mut b: ElementBuilder<Kind> = ElementBuilder::root();
    let r = b.root_ref();
    let w = b.child_window(r, Kind::Win);
    let a = b.child_widget(w, Kind::Rect);
    b.child_widget(a, Kind::Label);
    let mut t: ElementTree<Kind> = ElementTree::new();
    let root = t.root();
    let win = t.build_children(root, b)[0];
    let d = t.dynamic_child(win);
    let mut inner = ElementBuilder::root();
    let ir = inner.root_ref();
    inner.child_widget(ir, Kind::Rect);
    t.rebuild_dynamic(d, inner);

    let mut drawn = Vec::new();
    for c in t.children_of(win) {
        t.render_into(c, &mut drawn);
    }
    let kinds: Vec<Option<Kind>> = drawn.iter().map(|&e| t.widget_of(e)).collect();
    assert_eq!(kinds, vec![Some(Kind::Rect), Some(Kind::Label), Some(Kind::Rect)]);

    let mut nothing = Vec::new();
    t.render_into(root, &mut nothing);
    t.render_into(win, &mut nothing);
    assert!(nothing.is_empty());

    let mut windows = Vec::new();
    t.windows_in(root, &mut windows);
    assert_eq!(windows, vec![win]);
}

#[test]
fn built_dynamic_element_can_be_filled() {
    let mut b: ElementBuilder<Kind> = ElementBuilder::root();
    let r = b.root_ref();
    let w = b.child_window(r, Kind::Win);
    let dref = b.child_dynamic(w);
    let mut t: ElementTree<Kind> = ElementTree::new();
    let before = t.count();
    let root = t.root();
    t.build_children(root, b);
    let d = ElementTree::<Kind>::built_element(before, dref);
    assert_eq!(t.kind_of(d), ElementKind::Dynamic);
    assert_eq!(t.widget_of(d), None);
    let mut inner = ElementBuilder::root();
    let ir = inner.root_ref();
    inner.child_widget(ir, Kind::Label);
    inner.child_widget(ir, Kind::Rect);
    let old = t.rebuild_dynamic(d, inner);
    assert!(old.is_empty());
    assert_eq!(t.children_of(d).len(), 2);
    assert_eq!(t.get_window(t.children_of(d)[1]), t.parent_of(d));
}
