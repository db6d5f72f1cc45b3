use gpscan::order::{bytes_lt, sorted_positions};
use gpscan::paths::{chars_equal, components_start_with, path_components};
use gpscan::text::{decimal_string, from_chars, push_decimal, push_hexadecimal, to_chars};
use gpscan::tree::{height_within, Directory, DirectoryEntry, Node};

fn entry(name: &str) -> DirectoryEntry {
    DirectoryEntry { name: name.to_string(), node: Node::Other }
}

fn chars(text: &str) -> Vec<char> {
    text.chars().collect()
}

#[test]
fn strings_and_characters_convert_both_ways() {
    assert_eq!(to_chars(""), Vec::<char>::new());
    assert_eq!(to_chars("aé日😀"), vec!['a', 'é', '日', '😀']);
    assert_eq!(from_chars(&vec!['a', 'é', '日', '😀']), "aé日😀");
    assert_eq!(from_chars(&Vec::new()), "");
}

#[test]
fn decimal_numerals() {
    assert_eq!(decimal_string(0), "0");
    assert_eq!(decimal_string(7), "7");
    assert_eq!(decimal_string(10), "10");
    assert_eq!(decimal_string(1234567890), "1234567890");
    assert_eq!(decimal_string(u64::MAX), "18446744073709551615");
    let mut out = vec!['n', '='];
    push_decimal(&mut out, 405);
    assert_eq!(out, vec!['n', '=', '4', '0', '5']);
}

#[test]
fn hexadecimal_numerals() {
    let numeral = |n| {
        let mut out = Vec::new();
        push_hexadecimal(&mut out, n);
        out.into_iter().collect::<String>()
    };
    assert_eq!(numeral(0), "0");
    assert_eq!(numeral(9), "9");
    assert_eq!(numeral(10), "A");
    assert_eq!(numeral(15), "F");
    assert_eq!(numeral(16), "10");
    assert_eq!(numeral(0x1F), "1F");
    assert_eq!(numeral(0xFFFD), "FFFD");
    assert_eq!(numeral(0x10FFFF), "10FFFF");
    assert_eq!(numeral(u32::MAX), "FFFFFFFF");
}

#[test]
fn byte_strings_are_compared_lexicographically() {
    assert!(bytes_lt(b"", b"a"));
    assert!(!bytes_lt(b"", b""));
    assert!(!bytes_lt(b"a", b""));
    assert!(bytes_lt(b"a", b"b"));
    assert!(bytes_lt(b"a", b"aa"));
    assert!(bytes_lt(b"B", b"a"));
    assert!(bytes_lt(b"ab", b"b"));
    assert!(!bytes_lt(b"b", b"ab"));
    assert!(!bytes_lt(b"abc", b"abc"));
    assert!(bytes_lt(&[0x7f], &[0x80]));
}

#[test]
fn entries_are_sorted_by_name() {
    let entries = vec![entry("pear"), entry("apple"), entry("fig"), entry("Zebra"), entry("")];
    assert_eq!(sorted_positions(&entries), vec![4, 3, 1, 2, 0]);
    assert_eq!(sorted_positions(&Vec::new()), Vec::<usize>::new());
    assert_eq!(sorted_positions(&vec![entry("one")]), vec![0]);
}

#[test]
fn entries_of_one_name_keep_the_order_of_the_listing() {
    let entries = vec![entry("b"), entry("a"), entry("b"), entry("a"), entry("b"), entry("a")];
    assert_eq!(sorted_positions(&entries), vec![1, 3, 5, 0, 2, 4]);
}

#[test]
fn many_entries_are_sorted() {
    let names: Vec<String> = (0..1000u32).map(|i| format!("{:x}", i.wrapping_mul(2654435761))).collect();
    let entries: Vec<DirectoryEntry> = names.iter().map(|name| entry(name)).collect();
    let order = sorted_positions(&entries);
    let mut expected: Vec<usize> = (0..names.len()).collect();
    expected.sort_by(|a, b| names[*a].cmp(&names[*b]));
    assert_eq!(order, expected);
}

#[test]
fn paths_are_split_into_components() {
    let parts = |path| -> Vec<String> {
        path_components(path).into_iter().map(|part| part.into_iter().collect()).collect()
    };
    assert_eq!(parts(""), Vec::<String>::new());
    assert_eq!(parts("/"), vec!["/"]);
    assert_eq!(parts("/usr//local/./bin/"), vec!["/", "usr", "local", "bin"]);
    assert_eq!(parts("a/../b"), vec!["a", "..", "b"]);
    assert_eq!(parts("./a"), vec![".", "a"]);
    assert_eq!(parts("."), vec!["."]);
    assert_eq!(parts(".a"), vec![".a"]);
}

#[test]
fn components_are_compared_from_the_start() {
    let whole = vec![chars("/"), chars("home"), chars("user")];
    assert!(components_start_with(&whole, &Vec::new()));
    assert!(components_start_with(&whole, &vec![chars("/")]));
    assert!(components_start_with(&whole, &vec![chars("/"), chars("home")]));
    assert!(components_start_with(&whole, &whole));
    assert!(!components_start_with(&whole, &vec![chars("home")]));
    assert!(!components_start_with(&whole, &vec![chars("/"), chars("hom")]));
    assert!(!components_start_with(&vec![chars("/")], &whole));
    assert!(chars_equal(&chars("abc"), &chars("abc")));
    assert!(!chars_equal(&chars("abc"), &chars("abd")));
    assert!(!chars_equal(&chars("abc"), &chars("ab")));
}

fn chain(depth: usize) -> Directory {
    let mut dir = Directory { path: "leaf".to_string(), metadata: None, entries: Some(Vec::new()) };
    for level in 1..depth {
        dir = Directory {
            path: format!("level{}", level),
            metadata: None,
            entries: Some(vec![
                entry("file"),
                DirectoryEntry { name: "down".to_string(), node: Node::Directory(dir) },
                DirectoryEntry {
                    name: "flat".to_string(),
                    node: Node::Directory(Directory {
                        path: "flat".to_string(),
                        metadata: None,
                        entries: None,
                    }),
                },
            ]),
        };
    }
    dir
}

#[test]
fn heights_are_measured_in_directories() {
    assert!(!height_within(&chain(1), 0));
    assert!(height_within(&chain(1), 1));
    assert!(height_within(&chain(2), 2));
    assert!(!height_within(&chain(5), 4));
    assert!(height_within(&chain(5), 5));
    assert!(height_within(&chain(5), usize::MAX));
}
