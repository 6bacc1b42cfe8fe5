use std::collections::BTreeMap;
use vedavid_connector::labels::{comes_before, Labels};

#[test]
fn labels_come_in_the_order_of_a_sorted_map_whatever_the_order_of_arrival() {
    let arrivals = [
        vec![("job", "a"), ("__name__", "up"), ("instance", "x"), ("job", "b")],
        vec![("instance", "x"), ("job", "b"), ("__name__", "up")],
    ];
    let mut seen = Vec::new();
    for arrival in arrivals {
        let mut labels = Labels::new();
        let mut map = BTreeMap::new();
        for (name, value) in arrival {
            labels.insert(name.to_string(), value.to_string());
            map.insert(name.to_string(), value.to_string());
        }
        let sorted: Vec<(String, String)> = map.into_iter().collect();
        let entries = labels.into_entries();
        assert_eq!(entries, sorted);
        seen.push(entries);
    }
    assert_eq!(seen[0], seen[1]);
}

#[test]
fn names_are_ordered_as_strings_are() {
    let names = ["", "a", "aa", "ab", "b", "A", "_", "\u{e9}", "\u{1f600}", "\u{ffff}", "z\u{0}"];
    for a in names {
        for b in names {
            assert_eq!(comes_before(a, b), a < b, "{:?} {:?}", a, b);
        }
    }
}
