use rot::collections::{
    assemble, drop_repeated_keys, sorted_unique, stable_sort, take_second, SortedMap, SortedSet,
};
use rot::model::{Activation, ComplexityMetrics, Contexts, LineCounts, OutputRole, Reachability, TargetRole};
use rot::module_graph::{propagate, ModuleLink};
use rot::paths::{
    file_name, file_stem, has_extension, list_path_key, parent, paths_match, portable, resolve,
    strip_base,
};
use rot::text::{
    contains_part, decimal_text, fixed_text, join, list_lines, list_words, parse_number,
    replace_all, split, split_last, split_once, take_bytes, text_from, trim, utf8_length,
};

#[test]
fn activation_is_a_lattice_with_a_negation() {
    let all = [Activation::Never, Activation::Maybe, Activation::Always];
    for left in all {
        assert_eq!(left.not().not(), left);
        for right in all {
            assert_eq!(left.and(right), right.and(left));
            assert_eq!(left.or(right), right.or(left));
            assert_eq!(left.and(right).not(), left.not().or(right.not()));
            assert_eq!(left.or(left.and(right)), left);
        }
    }
    assert_eq!(Activation::Maybe.and(Activation::Always), Activation::Maybe);
    assert_eq!(Activation::Maybe.not(), Activation::Maybe);
}

#[test]
fn places_of_reachabilities_are_their_own() {
    for index in 0..9 {
        assert_eq!(Reachability::from_index(index).index(), index);
    }
    assert_eq!(Reachability::never().index(), 0);
    assert_eq!(Reachability::both().index(), 8);
}

#[test]
fn roles_of_code_follow_from_how_it_is_reached() {
    let production = Contexts::seed(TargetRole::Production, Reachability::both());
    assert_eq!(production.classify(Reachability::both()), OutputRole::Production);
    assert_eq!(production.classify(Reachability::test()), OutputRole::Test);
    assert_eq!(production.classify(Reachability::never()), OutputRole::Inactive);
    let maybe = Reachability { production: Activation::Maybe, test: Activation::Maybe };
    assert_eq!(production.classify(maybe), OutputRole::Conditional);
    let bench = Contexts::seed(TargetRole::Bench, Reachability::both());
    assert_eq!(bench.classify(Reachability::both()), OutputRole::Bench);

    let mut merged = bench;
    assert!(merged.merge(production));
    assert!(!merged.merge(production));
    assert_eq!(merged.classify(Reachability::both()), OutputRole::Production);
}

#[test]
fn counts_are_added_part_by_part() {
    let mut lines = LineCounts { physical: 3, code: 1, comments: 1, docs: 1, blank: 1 };
    lines.add(LineCounts { physical: 4, code: 3, comments: 0, docs: 0, blank: 1 });
    assert_eq!(lines, LineCounts { physical: 7, code: 4, comments: 1, docs: 1, blank: 2 });
    let mut metrics = ComplexityMetrics {
        lexical_complexity: 1,
        cyclomatic_authored: 2,
        cognitive_authored: 3,
    };
    metrics.add(metrics);
    assert_eq!(
        metrics,
        ComplexityMetrics { lexical_complexity: 2, cyclomatic_authored: 4, cognitive_authored: 6 }
    );
}

#[test]
fn contexts_spread_until_they_rest() {
    let both = Reachability::both();
    let links = vec![
        vec![ModuleLink { target: 1, gate: both }],
        vec![
            ModuleLink { target: 0, gate: both },
            ModuleLink { target: 2, gate: Reachability::test() },
        ],
        vec![],
    ];
    let mut contexts = vec![
        Contexts::seed(TargetRole::Production, both),
        Contexts::seed(TargetRole::Production, Reachability::never()),
        Contexts::seed(TargetRole::Production, Reachability::never()),
    ];
    propagate(&links, &mut contexts, vec![0]);
    assert_eq!(contexts[1].classify(both), OutputRole::Production);
    assert_eq!(contexts[2].classify(both), OutputRole::Test);
    let rested = contexts.clone();
    propagate(&links, &mut contexts, vec![0, 1, 2]);
    assert_eq!(contexts, rested);
}

#[test]
fn sets_and_maps_are_in_order() {
    let mut set: SortedSet<u64> = SortedSet::new();
    for item in [3, 1, 2, 3] {
        set.insert(item);
    }
    assert_eq!(set.len(), 3);
    assert_eq!(set.index_of(&2), Some(1));
    assert!(!set.contains(&4));
    assert_eq!(set.into_vec(), [1, 2, 3]);
    assert_eq!(sorted_unique(vec![2u64, 1, 2]), [1, 2]);

    let mut map: SortedMap<String, u64> = SortedMap::new();
    map.insert("b".to_owned(), 1);
    map.insert("a".to_owned(), 2);
    map.insert("b".to_owned(), 3);
    assert_eq!(map.len(), 2);
    assert_eq!(map.key_at(0), "a");
    assert_eq!(map.get(&"b".to_owned()), Some(&3));
    let map = assemble(vec![(1u64, 'x'), (1, 'y'), (0, 'z')]);
    assert_eq!(map.get(&1), Some(&'y'));
}

#[test]
fn equal_keys_keep_their_order() {
    let entries = vec![(2u64, 'a'), (1, 'b'), (2, 'c'), (1, 'd')];
    let sorted = stable_sort(entries);
    assert_eq!(take_second(sorted), ['b', 'd', 'a', 'c']);
    let kept = drop_repeated_keys(vec![(1u64, 'b'), (1, 'd'), (2, 'a')]);
    assert_eq!(take_second(kept), ['b', 'a']);
}

#[test]
fn paths_are_taken_apart_by_their_names() {
    assert_eq!(file_name("/a/b.rs").as_deref(), Some("b.rs"));
    assert_eq!(file_name("/a/.."), None);
    assert_eq!(file_stem("/a/b.tar.gz").as_deref(), Some("b.tar"));
    assert_eq!(file_stem("/a/.hidden").as_deref(), Some(".hidden"));
    assert!(has_extension("a/b.rs", "rs"));
    assert!(!has_extension("a/.rs", "rs"));
    assert_eq!(parent("/a/b").as_deref(), Some("/a"));
    assert_eq!(parent("/"), None);
    assert_eq!(strip_base("/a/b/c", "/a/b").as_deref(), Some("c"));
    assert_eq!(strip_base("/a/bc", "/a/b"), None);
    assert_eq!(resolve("/a", "b/c"), "/a/b/c");
    assert_eq!(resolve("/a", "/b"), "/b");
    assert_eq!(portable("a\\b"), "a/b");
    assert!(list_path_key("/a/c") < list_path_key("/a-b"));
}

#[test]
fn below_nothing_is_the_path_itself() {
    assert_eq!(strip_base("/a/b", "").as_deref(), Some("/a/b"));
    assert_eq!(strip_base("/a/b/", "").as_deref(), Some("/a/b"));
    assert_eq!(strip_base("/", "").as_deref(), Some("/"));
    assert_eq!(strip_base("a/b", "").as_deref(), Some("a/b"));
    assert_eq!(strip_base("./a", "").as_deref(), Some("./a"));
    assert_eq!(strip_base("", "").as_deref(), Some(""));
    assert_eq!(strip_base("/a", "/").as_deref(), Some("a"));
}

#[test]
fn paths_are_equal_by_their_components() {
    assert!(paths_match("/a//b/./c/", "/a/b/c"));
    assert!(paths_match("a/b", "a/b"));
    assert!(!paths_match("./a", "a"));
    assert!(!paths_match("/a/b", "a/b"));
    assert!(!paths_match("/a/../b", "/b"));
}

#[test]
fn texts_are_split_and_joined() {
    let pieces = split("a,b,,c", ',');
    assert_eq!(pieces, ["a", "b", "", "c"]);
    assert_eq!(join(&pieces, ","), "a,b,,c");
    assert_eq!(split_once("k=v=w", '='), Some(("k".to_owned(), "v=w".to_owned())));
    assert_eq!(split_last("k=v=w", '='), Some(("k=v".to_owned(), "w".to_owned())));
    assert_eq!(split_once("k", '='), None);
    assert_eq!(list_lines("a\r\nb\n\nc"), ["a", "b", "", "c"]);
    assert_eq!(list_words(" a\t b\n"), ["a", "b"]);
    assert_eq!(trim("\u{a0} a b \n"), "a b");
    assert_eq!(replace_all("aaa", "aa", "b"), "ba");
    assert!(contains_part("needle", "eed"));
}

#[test]
fn numbers_are_written_and_read() {
    assert_eq!(decimal_text(0), "0");
    assert_eq!(decimal_text(340282366920938463463374607431768211455), u128::MAX.to_string());
    assert_eq!(fixed_text(255, 16, 4), "00ff");
    assert_eq!(parse_number("42", 100), Some(42));
    assert_eq!(parse_number("+42", 100), Some(42));
    assert_eq!(parse_number("101", 100), None);
    assert_eq!(parse_number("", 100), None);
    assert_eq!(parse_number("4x", 100), None);
}

#[test]
fn bytes_of_a_text_are_counted_and_read() {
    assert_eq!(utf8_length("a\u{e9}\u{20ac}\u{1f600}"), 10);
    assert_eq!(take_bytes("a\u{20ac}b", 4), "a\u{20ac}");
    assert_eq!(take_bytes("a\u{20ac}b", 3), "a\u{20ac}b");
    assert_eq!(take_bytes("a", 3), "a");
    assert_eq!(text_from(&"\u{e9}".as_bytes().to_vec(), "bad"), Ok("\u{e9}".to_owned()));
    assert_eq!(text_from(&vec![0xff], "bad"), Err("bad".to_owned()));
}
