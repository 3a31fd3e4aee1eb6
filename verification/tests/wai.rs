use rapt::wai::{push_child, Node};

#[test]
pub fn test1() {
    let mut nodes = vec![Node { parent: None, child: None, next: None, val: String::from("n0") }];
    let _n1 = push_child(&mut nodes, 0, "n1").unwrap();
}

#[test]
fn pushed_children_come_first() {
    let mut nodes = vec![Node { parent: None, child: None, next: None, val: String::from("n0") }];
    let n1 = push_child(&mut nodes, 0, "n1").unwrap();
    let n2 = push_child(&mut nodes, 0, "n2").unwrap();
    assert_eq!((n1, n2), (1, 2));
    assert_eq!(nodes[0].child, Some(2));
    assert_eq!(nodes[2].next, Some(1));
    assert_eq!(nodes[1].next, None);
    assert_eq!(nodes[2].parent, Some(0));
    assert_eq!(nodes[2].val, "n2");
}
