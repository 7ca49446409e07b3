use timekeeper::members::binary_search;

#[test]
fn binary_search_finds_the_place() {
    let list: Vec<u64> = vec![10, 20, 30, 40];
    assert_eq!(binary_search(&list, 10), Ok(0));
    assert_eq!(binary_search(&list, 30), Ok(2));
    assert_eq!(binary_search(&list, 40), Ok(3));
    assert_eq!(binary_search(&list, 5), Err(0));
    assert_eq!(binary_search(&list, 25), Err(2));
    assert_eq!(binary_search(&list, 45), Err(4));
    assert_eq!(binary_search(&Vec::new(), 1), Err(0));
}

#[test]
fn binary_search_agrees_with_a_scan() {
    let list: Vec<u64> = (0..50).map(|k| k * 3 + 1).collect();
    for account in 0..160u64 {
        let smaller = list.iter().filter(|held| **held < account).count();
        let expected = if list.contains(&account) { Ok(smaller) } else { Err(smaller) };
        assert_eq!(binary_search(&list, account), expected);
    }
}
