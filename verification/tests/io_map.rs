use dict_walker::io_map::blank_step;
use dict_walker::io_map::highest;
use dict_walker::io_map::one_hot;
use dict_walker::io_map::IOMap;

fn vocabulary() -> Vec<String> {
    vec![String::from("a"), String::from("b"), String::from("č"), String::from("[EH]")]
}

fn blank(length: usize, width: usize) -> Vec<Vec<i32>> {
    (0..length).map(|_| blank_step(width)).collect()
}

#[test]
fn a_map_has_the_length_of_its_vocabulary() {
    assert_eq!(IOMap::new(vocabulary()).len(), 4);
    assert_eq!(IOMap::new(Vec::new()).len(), 0);
}

#[test]
fn positions_follow_the_order_of_declaration() {
    let map = IOMap::new(vocabulary());
    assert_eq!(map.position_of("a"), Some(0));
    assert_eq!(map.position_of("b"), Some(1));
    assert_eq!(map.position_of("č"), Some(2));
    assert_eq!(map.position_of("[EH]"), Some(3));
    assert_eq!(map.position_of("c"), None);
    assert_eq!(map.position_of(""), None);
    assert_eq!(map.symbol_at(2), "č");
}

#[test]
fn a_repeated_symbol_has_its_last_place() {
    let map = IOMap::new(vec![String::from("a"), String::from("b"), String::from("a")]);
    assert_eq!(map.len(), 3);
    assert_eq!(map.position_of("a"), Some(2));
    assert_eq!(map.position_of("b"), Some(1));
}

#[test]
fn encoding_raises_one_level_in_each_step() {
    let map = IOMap::new(vocabulary());
    let mut tensor = blank(3, 4);
    map.encode(&vec![String::from("č"), String::from("a")], 3, &mut tensor);
    assert_eq!(tensor, vec![vec![0, 0, 1, 0], vec![1, 0, 0, 0], vec![0, 0, 0, 0]]);
}

#[test]
fn encoding_leaves_the_other_levels_as_they_were() {
    let map = IOMap::new(vocabulary());
    let mut tensor = vec![vec![5, -1, 0, 7], vec![2, 2, 2, 2]];
    map.encode(&vec![String::from("b")], 2, &mut tensor);
    assert_eq!(tensor, vec![vec![5, 1, 0, 7], vec![2, 2, 2, 2]]);
}

#[test]
fn decoding_recovers_what_was_encoded() {
    let map = IOMap::new(vocabulary());
    let tokens = vec![String::from("[EH]"), String::from("a"), String::from("a"), String::from("č"), String::from("b")];
    let mut tensor = blank(tokens.len(), map.len());
    map.encode(&tokens, tokens.len(), &mut tensor);
    assert_eq!(map.decode(&tensor), tokens);
    let none: Vec<String> = Vec::new();
    let mut empty = blank(0, map.len());
    map.encode(&none, 0, &mut empty);
    assert_eq!(map.decode(&empty), none);
}

#[test]
fn decoding_picks_the_highest_level() {
    let map = IOMap::new(vocabulary());
    let tensor = vec![vec![1, 5, 3, 2], vec![-4, -2, -3, -1], vec![0, 0, 0, 9]];
    assert_eq!(map.decode(&tensor), vec!["b", "[EH]", "[EH]"]);
}

#[test]
fn ties_go_to_the_first_place() {
    let map = IOMap::new(vocabulary());
    let tensor = vec![vec![0, 0, 0, 0], vec![1, 7, 7, 2], vec![3, 3, 1, 3]];
    assert_eq!(map.decode(&tensor), vec!["a", "b", "a"]);
    assert_eq!(highest(&vec![2, 9, 9, 9]), 1);
    assert_eq!(highest(&vec![i32::MIN]), 0);
    assert_eq!(highest(&vec![i32::MIN, i32::MAX, i32::MAX]), 1);
}

#[test]
fn a_short_step_is_decoded_within_its_length() {
    let map = IOMap::new(vocabulary());
    assert_eq!(map.decode(&vec![vec![1, 2]]), vec!["b"]);
}

#[test]
fn one_hot_steps() {
    assert_eq!(one_hot(4, 2), vec![0, 0, 1, 0]);
    assert_eq!(one_hot(3, 0), vec![1, 0, 0]);
    assert_eq!(one_hot(2, 5), vec![0, 0]);
    assert_eq!(one_hot(0, 0), Vec::<i32>::new());
    assert_eq!(blank_step(3), vec![0, 0, 0]);
    assert_eq!(highest(&one_hot(5, 3)), 3);
}
