use acrf::order::{pair_before, sorted_order, text_before};

fn pair(a: &str, b: &str) -> (String, String) {
    (a.to_string(), b.to_string())
}

const WORDS: &[&str] = &["", "a", "A", "ab", "b", "AE", "AE-", "AE-A", "é", "z", "知", "\u{10000}", "\u{ffff}"];

#[test]
fn texts_are_ordered_by_their_bytes() {
    for a in WORDS {
        for b in WORDS {
            assert_eq!(text_before(a, b), a <= b);
        }
    }
    assert!(text_before("", "a"));
    assert!(!text_before("a", ""));
    assert!(text_before("a", "a"));
    assert!(text_before("Z", "a"));
    assert!(text_before("\u{ffff}", "\u{10000}"));
}

#[test]
fn pairs_are_ordered_by_the_first_text_first() {
    for a in WORDS {
        for b in WORDS {
            for c in ["", "m"] {
                for d in ["", "m", "n"] {
                    let x = pair(a, c);
                    let y = pair(b, d);
                    assert_eq!(pair_before(&x, &y), x <= y);
                }
            }
        }
    }
}

#[test]
fn sorting_keeps_equal_keys_in_their_order() {
    let keys = vec![
        pair("VS", "VSORRES"),
        pair("AE", "AETERM"),
        pair("VS", "VSORRES"),
        pair("AE", "AESER"),
        pair("AE", "AETERM"),
        pair("", ""),
    ];
    assert_eq!(sorted_order(&keys), vec![5, 3, 1, 4, 0, 2]);
    assert_eq!(sorted_order(&vec![]), Vec::<usize>::new());
    assert_eq!(sorted_order(&vec![pair("a", "b")]), vec![0]);
    let mut many = Vec::new();
    for a in WORDS.iter().rev() {
        for b in WORDS {
            many.push(pair(a, b));
        }
    }
    let order = sorted_order(&many);
    let mut want: Vec<usize> = (0..many.len()).collect();
    want.sort_by_key(|i| many[*i].clone());
    assert_eq!(order, want);
}
