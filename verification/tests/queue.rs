use collections::queue::{Node, Queue};

#[test]
fn push_and_take_in_turn() {
    let mut queue: Queue<i32> = Queue::new();
    queue.push(1);
    queue.push(2);
    assert_eq!(queue.take(), Some(1));
    queue.push(3);
    assert_eq!(queue.take(), Some(2));
    assert_eq!(queue.take(), Some(3));
    assert_eq!(queue.take(), None);
    assert_eq!(queue.size(), 0);
}

#[test]
fn new_queue_is_empty() {
    let mut queue: Queue<String> = Queue::new();
    assert_eq!(queue.size(), 0);
    assert_eq!(queue.take(), None);
    assert_eq!(queue.size(), 0);
}

#[test]
fn first_in_first_out_over_many_elements() {
    let mut queue: Queue<usize> = Queue::new();
    for value in 0..100 {
        queue.push(value);
        assert_eq!(queue.size(), value + 1);
    }
    for value in 0..100 {
        assert_eq!(queue.take(), Some(value));
        assert_eq!(queue.size(), 99 - value);
    }
    assert_eq!(queue.take(), None);
    assert_eq!(queue.size(), 0);
}

#[test]
fn take_on_empty_queue_changes_nothing() {
    let mut queue: Queue<i32> = Queue::new();
    queue.push(5);
    assert_eq!(queue.take(), Some(5));
    assert_eq!(queue.take(), None);
    assert_eq!(queue.take(), None);
    assert_eq!(queue.size(), 0);
    queue.push(6);
    assert_eq!(queue.size(), 1);
    assert_eq!(queue.take(), Some(6));
}

#[test]
fn a_single_element_goes_in_and_out() {
    let mut queue: Queue<&str> = Queue::new();
    queue.push("only");
    assert_eq!(queue.size(), 1);
    assert_eq!(queue.take(), Some("only"));
    assert_eq!(queue.size(), 0);
}

#[test]
fn places_are_used_again_in_any_order() {
    let mut queue: Queue<u32> = Queue::new();
    let mut next_in = 0;
    let mut next_out = 0;
    for round in 0..50 {
        for _ in 0..(round % 7 + 1) {
            queue.push(next_in);
            next_in += 1;
        }
        for _ in 0..(round % 5 + 1) {
            if next_out < next_in {
                assert_eq!(queue.take(), Some(next_out));
                next_out += 1;
            } else {
                assert_eq!(queue.take(), None);
            }
        }
        assert_eq!(queue.size(), (next_in - next_out) as usize);
    }
    while next_out < next_in {
        assert_eq!(queue.take(), Some(next_out));
        next_out += 1;
    }
    assert_eq!(queue.take(), None);
    assert_eq!(queue.size(), 0);
}

#[test]
fn elements_that_own_memory_come_back_whole() {
    let mut queue: Queue<Vec<String>> = Queue::new();
    queue.push(vec!["a".to_string(), "b".to_string()]);
    queue.push(Vec::new());
    queue.push(vec!["c".to_string()]);
    assert_eq!(queue.take(), Some(vec!["a".to_string(), "b".to_string()]));
    assert_eq!(queue.take(), Some(Vec::new()));
    assert_eq!(queue.take(), Some(vec!["c".to_string()]));
    assert_eq!(queue.take(), None);
}

#[test]
fn a_node_gives_back_its_element() {
    let node = Node::new(41);
    assert_eq!(Node::into_element(Box::new(node)), 41);
    let node = Box::new(Node::new("text".to_string()));
    assert_eq!(node.into_element(), "text".to_string());
}
