use browser::dom_tree::{new_element, Doctype, Document, Element, ElementType};

fn check_add_child() {
    let s: Option<String> = Some("x".to_string());
    let s2: Option<String> = Some("y".to_string());
    let s3: Option<String> = Some("z".to_string());

    let ss: Option<String> = Some("a".to_string());
    let ss2: Option<String> = Some("b".to_string());
    let ss3: Option<String> = Some("c".to_string());

    let mut document = Document::new(Doctype::Html);
    document.element = Some(Element::new_root(ElementType::Root));
    document.element.as_mut().unwrap().add_child(ElementType::Title, s);
    document.element.as_mut().unwrap().add_child(ElementType::Head, s2);
    document.element.as_mut().unwrap().add_child(ElementType::Body, s3);

    document.element.as_mut().unwrap().children[1].add_child(ElementType::Body, ss);
    document.element.as_mut().unwrap().children[1].add_child(ElementType::Body, ss2);
    document.element.as_mut().unwrap().children[1].add_child(ElementType::Body, ss3);

    assert!(document.element.as_mut().unwrap().children.len() == 3);

    assert!(document.element.as_mut().unwrap().children[0].children.len() == 0);
    assert!(document.element.as_mut().unwrap().children[1].children.len() == 3);
    assert!(document.element.as_mut().unwrap().children[2].children.len() == 0);

    assert!(document.element.as_mut().unwrap().children[0].text.is_some());
    assert!(document.element.as_mut().unwrap().children[1].text.is_some());
    assert!(document.element.as_mut().unwrap().children[2].text.is_some());

    assert!(document.element.as_mut().unwrap().children[1].children[0].text.is_some());
    assert!(document.element.as_mut().unwrap().children[1].children[1].text.is_some());
    assert!(document.element.as_mut().unwrap().children[1].children[2].text.is_some());

    match document.element.as_mut().unwrap().children[0].text {
        Some(ref s) => {
            if *s != "x" {
                assert!(false)
            }
        }
        None => assert!(false),
    }

    match document.element.as_mut().unwrap().children[1].text {
        Some(ref s) => {
            if *s != "y" {
                assert!(false)
            }
        }
        None => assert!(false),
    }

    match document.element.as_mut().unwrap().children[2].text {
        Some(ref s) => {
            if *s != "z" {
                assert!(false)
            }
        }
        None => assert!(false),
    }

    match document.element.as_mut().unwrap().children[1].children[0].text {
        Some(ref s) => {
            if *s != "a" {
                assert!(false)
            }
        }
        None => assert!(false),
    }

    match document.element.as_mut().unwrap().children[1].children[1].text {
        Some(ref s) => {
            if *s != "b" {
                assert!(false)
            }
        }
        None => assert!(false),
    }

    match document.element.as_mut().unwrap().children[1].children[2].text {
        Some(ref s) => {
            if *s != "c" {
                assert!(false)
            }
        }
        None => assert!(false),
    }
}

#[test]
fn lib_dom_add_child() {
    check_add_child();
}

#[test]
fn mod_dom_add_child() {
    check_add_child();
}

#[test]
fn add_child_element_keeps_order_and_copy_is_deep() {
    let mut root = Element::new_root(ElementType::Root);
    let mut head = new_element(ElementType::Head, None);
    head.add_child(ElementType::Title, Some("t".to_string()));
    root.add_child_element(head);
    root.add_child_element(new_element(ElementType::Body, Some("b".to_string())));

    let copy = root.clone();
    assert_eq!(copy.e_type, ElementType::Root);
    assert_eq!(copy.children.len(), 2);
    assert_eq!(copy.children[0].e_type, ElementType::Head);
    assert_eq!(copy.children[0].children[0].e_type, ElementType::Title);
    assert_eq!(copy.children[0].children[0].text, Some("t".to_string()));
    assert_eq!(copy.children[1].e_type, ElementType::Body);
    assert_eq!(copy.children[1].text, Some("b".to_string()));

    let doc = Document::new(Doctype::Html);
    assert!(doc.element.is_none());
    assert_eq!(doc.d_type, Doctype::Html);
}
