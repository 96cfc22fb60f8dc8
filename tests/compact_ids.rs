use mail_retention::compact::compact_ids;

fn decode(text: &str) -> Vec<u32> {
    let mut out = Vec::new();
    if text.is_empty() {
        return out;
    }
    for part in text.split(',') {
        match part.split_once(':') {
            Some((a, b)) => {
                let a: u32 = a.parse().unwrap();
                let b: u32 = b.parse().unwrap();
                for x in a..=b {
                    out.push(x);
                }
            }
            None => out.push(part.parse().unwrap()),
        }
    }
    out
}

#[test]
fn empty_set_gives_empty_text() {
    assert_eq!(compact_ids(vec![], ","), "");
}

#[test]
fn single_value_stays_bare() {
    assert_eq!(compact_ids(vec![5], ","), "5");
}

#[test]
fn contiguous_values_form_one_range() {
    assert_eq!(compact_ids(vec![1, 2, 3], ","), "1:3");
}

#[test]
fn runs_and_singles_mixed() {
    assert_eq!(compact_ids(vec![1, 2, 4, 5, 7], ","), "1:2,4:5,7");
}

#[test]
fn input_order_does_not_matter() {
    let a = compact_ids(vec![7, 5, 1, 4, 2], ",");
    let b = compact_ids(vec![2, 4, 7, 1, 5], ",");
    assert_eq!(a, "1:2,4:5,7");
    assert_eq!(a, b);
}

#[test]
fn separator_is_a_parameter() {
    assert_eq!(compact_ids(vec![3, 1, 2, 9], " "), "1:3 9");
}

#[test]
fn largest_identifiers() {
    assert_eq!(compact_ids(vec![u32::MAX, u32::MAX - 1, 0], ","), "0,4294967294:4294967295");
}

#[test]
fn decoding_gives_back_the_set() {
    let ids = vec![40, 3, 41, 17, 4, 5, 100, 42, 1];
    let mut sorted = ids.clone();
    sorted.sort();
    let text = compact_ids(ids, ",");
    assert_eq!(text, "1,3:5,17,40:42,100");
    assert_eq!(decode(&text), sorted);
}
