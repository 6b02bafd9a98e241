use syncbox::calc::{compute_operation, parse_digits, solve, ten_candidates};

#[test]
fn test_division_zero() {
    let result = compute_operation((&vec![&2, &0, &2, &2, &1], &vec![&'/', &'-', &'x', &'+']));
    assert!(result.is_none());
}

#[test]
fn test_not_integer_division() {
    let result = compute_operation((&vec![&2, &3, &2, &2, &1], &vec![&'/', &'-', &'x', &'+']));
    assert!(result.is_none());
}

#[test]
fn test_operation_negative() {
    let result = compute_operation((&vec![&2, &7, &2, &2, &1], &vec![&'-', &'-', &'x', &'+']));
    assert_eq!(result.unwrap(), (-13, "2 - 7 - 2 x 2 + 1".to_string()));
}

#[test]
fn test_operation_10() {
    let result = compute_operation((&vec![&7, &2, &1, &2, &2], &vec![&'-', &'-', &'x', &'+']));
    assert_eq!(result.unwrap(), (10, "7 - 2 - 1 x 2 + 2".to_string()));
}

#[test]
fn exact_division_of_a_negative_value_rounds_toward_zero() {
    let result = compute_operation((&vec![&1, &7, &2], &vec![&'-', &'/']));
    assert_eq!(result.unwrap(), (-3, "1 - 7 / 2".to_string()));
}

#[test]
fn solve_keeps_only_the_tens_in_order() {
    let a = vec![&7, &2, &1, &2, &2];
    let b = vec![&2, &7, &2, &2, &1];
    let c = vec![&5, &5, &0, &0, &0];
    let plus_minus = vec![&'-', &'-', &'x', &'+'];
    let sums = vec![&'+', &'+', &'+', &'+'];
    let div = vec![&'/', &'+', &'+', &'+'];
    let cands = [(&a, &plus_minus), (&b, &plus_minus), (&c, &sums), (&c, &div)];
    let res = solve(&cands);
    assert_eq!(res, vec!["7 - 2 - 1 x 2 + 2".to_string(), "5 + 5 + 0 + 0 + 0".to_string()]);
}

#[test]
fn parse_digits_reads_words_from_last_to_first() {
    assert_eq!(parse_digits("7 2 1 2 2"), Some(vec![2, 2, 1, 2, 7]));
    assert_eq!(parse_digits("9"), Some(vec![9]));
    assert_eq!(parse_digits("7  2"), None);
    assert_eq!(parse_digits("7 x"), None);
    assert_eq!(parse_digits(""), None);
}

#[test]
fn ten_candidates_pairs_every_permutation_with_every_combination() {
    let cands = ten_candidates(&vec![2, 2, 1, 2, 7]);
    assert_eq!(cands.len(), 120 * 35);
    assert_eq!(cands[0], (vec![2, 2, 1, 2, 7], vec!['+', '+', '+', '+']));
    assert_eq!(cands[1], (vec![2, 2, 1, 2, 7], vec!['+', '+', '+', '-']));
    assert_eq!(cands[35], (vec![2, 2, 1, 7, 2], vec!['+', '+', '+', '+']));
    let refs: Vec<(Vec<&i32>, Vec<&char>)> =
        cands.iter().map(|(v, o)| (v.iter().collect(), o.iter().collect())).collect();
    let slice: Vec<(&Vec<&i32>, &Vec<&char>)> = refs.iter().map(|(v, o)| (v, o)).collect();
    let found = solve(&slice);
    assert_eq!(found.len(), 108);
    assert_eq!(found[0], "2 + 2 + 1 + 7 - 2");
}
