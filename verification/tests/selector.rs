use geodns::selector::ServerSelector;

#[test]
fn a_new_selector_starts_at_the_head() {
    let selector = ServerSelector::new();
    assert_eq!(selector.position(), 0);
}

#[test]
fn next_server_cycles_through_the_list() {
    let servers = ["8.8.8.8:53", "8.8.4.4:53", "1.1.1.1:53"];
    let mut selector = ServerSelector::new();
    assert_eq!(selector.next_server(&servers), "8.8.8.8:53");
    assert_eq!(selector.next_server(&servers), "8.8.4.4:53");
    assert_eq!(selector.next_server(&servers), "1.1.1.1:53");
    assert_eq!(selector.next_server(&servers), "8.8.8.8:53");
    assert_eq!(selector.position(), 1);
}

#[test]
fn next_server_wraps_the_cursor_to_a_shorter_list() {
    let long = ["a", "b", "c"];
    let short = ["x", "y"];
    let mut selector = ServerSelector::new();
    assert_eq!(selector.next_server(&long), "a");
    assert_eq!(selector.next_server(&long), "b");
    assert_eq!(selector.position(), 2);
    assert_eq!(selector.next_server(&short), "x");
    assert_eq!(selector.position(), 1);
    assert_eq!(selector.next_server(&short), "y");
    assert_eq!(selector.position(), 0);
}

#[test]
fn next_server_of_a_single_server() {
    let servers = ["0.0.0.0:53"];
    let mut selector = ServerSelector::new();
    assert_eq!(selector.next_server(&servers), "0.0.0.0:53");
    assert_eq!(selector.next_server(&servers), "0.0.0.0:53");
    assert_eq!(selector.position(), 0);
}

#[test]
fn next_index_picks_then_advances() {
    let mut selector = ServerSelector::new();
    assert_eq!(selector.next_index(4), 0);
    assert_eq!(selector.next_index(4), 1);
    assert_eq!(selector.next_index(4), 2);
    assert_eq!(selector.next_index(4), 3);
    assert_eq!(selector.next_index(4), 0);
    assert_eq!(selector.next_index(1), 0);
    assert_eq!(selector.position(), 0);
}
