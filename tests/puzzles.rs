use emale::puzzles::{count_trees, find_sum, find_sum_better_answer, is_valid, is_valid_2, is_valid_count, transpose};

#[test]
fn transpose_square_and_tall_matrices() {
    let arr1 = vec![vec![1, 2, 3], vec![4, 5, 6], vec![7, 8, 9]];
    assert_eq!(transpose(arr1), vec![vec![1, 4, 7], vec![2, 5, 8], vec![3, 6, 9]]);
    let arr2 = vec![vec![1, 2], vec![3, 4], vec![5, 6], vec![7, 8]];
    assert_eq!(transpose(arr2), vec![vec![1, 3, 5, 7], vec![2, 4, 6, 8]]);
}

#[test]
fn find_sum_returns_the_product_of_three_entries() {
    let input = vec![1721, 979, 366, 299, 675, 1456];
    assert_eq!(find_sum(&input), 241861950);
}

#[test]
fn find_sum_takes_the_first_triple_found() {
    // (0, 1, 2) and (0, 1, 3) both add up to 2020; the first one wins
    let input = vec![1000, 1000, 20, 20, 7];
    assert_eq!(find_sum(&input), 20_000_000);
}

#[test]
fn is_valid_counts_occurrences() {
    assert!(is_valid(&vec![1, 3], "a", "abcde"));
    assert!(!is_valid(&vec![1, 3], "b", "cdefg"));
    assert!(is_valid(&vec![2, 9], "c", "ccccccccc"));
    assert!(is_valid_count(&vec![2, 2], 2));
    assert!(!is_valid_count(&vec![2, 2], 3));
}

#[test]
fn is_valid_2_wants_exactly_one_position() {
    assert!(is_valid_2(&vec![1, 3], "a", "abcde"));
    assert!(!is_valid_2(&vec![1, 3], "b", "cdefg"));
    assert!(!is_valid_2(&vec![2, 9], "c", "ccccccccc"));
    // a limit one past the end looks at the last character
    assert!(is_valid_2(&vec![1, 4], "c", "abc"));
}

#[test]
fn count_trees_on_the_sample_map() {
    let map: Vec<String> = [
        "..##.......",
        "#...#...#..",
        ".#....#..#.",
        "..#.#...#.#",
        ".#...##..#.",
        "..#.##.....",
        ".#.#.#....#",
        ".#........#",
        "#.##...#...",
        "#...##....#",
        ".#..#...#.#",
    ]
    .iter()
    .map(|s| s.to_string())
    .collect();
    assert_eq!(count_trees(&map, 3, 1), 7);
    assert_eq!(count_trees(&map, 1, 1), 2);
    assert_eq!(count_trees(&map, 5, 1), 3);
    assert_eq!(count_trees(&map, 7, 1), 4);
    assert_eq!(count_trees(&map, 1, 2), 2);
}

#[test]
fn find_sum_better_answer_pairs_the_smallest_value() {
    let input = vec![1721, 979, 366, 299, 675, 1456];
    assert_eq!(find_sum_better_answer(&input), 514579);
    // 1000 + 1020 and 10 + 2010 both add up to 2020; 10 is the smaller value
    assert_eq!(find_sum_better_answer(&vec![1000, 2010, 1020, 10]), 20100);
    // a pair of 1010s comes after the smaller pair
    assert_eq!(find_sum_better_answer(&vec![1010, 1010, 20, 2000]), 40000);
}

#[test]
fn matches_are_counted_leftmost_without_overlap() {
    // "aa" occurs twice in "aaaa" without overlap, three times with it
    assert!(is_valid(&vec![2, 2], "aa", "aaaa"));
    assert!(!is_valid(&vec![3, 3], "aa", "aaaa"));
    // an empty pattern matches at every position, the end included
    assert!(is_valid(&vec![4, 4], "", "abc"));
}

#[test]
fn matching_agrees_with_std() {
    let cases = [("aaaa", "aa"), ("abc", ""), ("", ""), ("", "a"), ("banana", "ana"), ("héllo wörld", "ö"), ("xyz", "xyzw")];
    for (s, p) in cases {
        assert_eq!(emale::search::count_matches(s, p), s.matches(p).count(), "{:?} in {:?}", p, s);
        assert_eq!(emale::search::replace_matches(s, p, "<>"), s.replace(p, "<>"), "{:?} in {:?}", p, s);
    }
    assert_eq!(emale::search::replace_matches("abc", "", "X"), "XaXbXcX");
}
