use rust_design_pattern::generator::module::Module;
use rust_design_pattern::generator::modules::{find_mods, group_by_pattern, Modules};
use rust_design_pattern::generator::order::{comes_before, sort_dirs};
use rust_design_pattern::generator::output::Output;
use rust_design_pattern::generator::render::{update_mods, update_readme};
use rust_design_pattern::text::join_with;

fn strings(items: &[&str]) -> Vec<String> {
    items.iter().map(|item| item.to_string()).collect()
}

fn listings(items: &[&[&str]]) -> Vec<Vec<String>> {
    items.iter().map(|listing| strings(listing)).collect()
}

fn names(modules: &Modules, index: usize) -> Vec<String> {
    modules.members(index).iter().map(|module| module.name().to_string()).collect()
}

const HEADER: &str = "# Rust Design Pattern ( ver 1 )\n\
## Versions\n\
- [ver 1](https://github.com/suzuki-hoge/rust-design-pattern/tree/master)\n\
## Implementations\n";

#[test]
fn join_with_puts_the_separator_between() {
    assert_eq!(join_with(&strings(&[]), ", "), "");
    assert_eq!(join_with(&strings(&["a"]), ", "), "a");
    assert_eq!(join_with(&strings(&["a", "b", "c"]), ", "), "a, b, c");
    assert_eq!(join_with(&strings(&["a", "", "c"]), "-"), "a--c");
    assert_eq!(join_with(&strings(&["a", "b"]), ""), "ab");
}

#[test]
fn output_keeps_its_lines_in_order() {
    let mut output = Output::new();
    assert!(output.lines().is_empty());
    output.add("first");
    output.add("second");
    assert_eq!(output.lines(), &strings(&["first", "second"]));
    assert_eq!(output.text(), "first\nsecond\n");
}

#[test]
fn output_without_lines_is_one_line_feed() {
    assert_eq!(Output::new().text(), "\n");
}

#[test]
fn module_takes_pattern_and_name_from_its_path() {
    let module = Module::new("src/behavioral_patterns/command");
    assert_eq!(module.path(), "src/behavioral_patterns/command");
    assert_eq!(module.pattern(), "behavioral_patterns");
    assert_eq!(module.name(), "command");
}

#[test]
fn module_reads_the_second_and_third_piece() {
    let deep = Module::new("a/b/c/d");
    assert_eq!(deep.pattern(), "b");
    assert_eq!(deep.name(), "c");
    let empty = Module::new("//");
    assert_eq!(empty.pattern(), "");
    assert_eq!(empty.name(), "");
    let trailing = Module::new("root/family/");
    assert_eq!(trailing.pattern(), "family");
    assert_eq!(trailing.name(), "");
}

#[test]
fn comes_before_compares_byte_by_byte() {
    assert!(comes_before("a", "b"));
    assert!(!comes_before("b", "a"));
    assert!(!comes_before("a", "a"));
    assert!(comes_before("", "a"));
    assert!(!comes_before("", ""));
    assert!(comes_before("ab", "abc"));
    assert!(!comes_before("abc", "ab"));
    assert!(comes_before("B", "a"));
    assert!(comes_before("a-b", "a/b"));
    assert!(comes_before("z", "\u{e9}"));
    assert!(comes_before("\u{e9}", "\u{4e2d}"));
}

#[test]
fn sort_dirs_orders_a_listing() {
    let found = strings(&["src/structural", "src/behavioral", "src/creational"]);
    assert_eq!(sort_dirs(&found), strings(&["src/behavioral", "src/creational", "src/structural"]));
    assert_eq!(sort_dirs(&strings(&[])), strings(&[]));
    assert_eq!(sort_dirs(&strings(&["b", "a", "b", "A"])), strings(&["A", "a", "b", "b"]));
}

#[test]
fn sort_dirs_does_not_depend_on_the_order_found() {
    let one = strings(&["src/c", "src/a", "src/b", "src/ab"]);
    let other = strings(&["src/ab", "src/b", "src/c", "src/a"]);
    let sorted = sort_dirs(&one);
    assert_eq!(sorted, sort_dirs(&other));
    assert_eq!(sorted, sort_dirs(&sorted));
    let mut by_std = one.clone();
    by_std.sort();
    assert_eq!(sorted, by_std);
}

#[test]
fn grouping_keeps_the_order_found_within_a_family() {
    let found = vec![
        Module::new("src/b/z"),
        Module::new("src/a/x"),
        Module::new("src/b/y"),
        Module::new("src/b/z"),
    ];
    let modules = group_by_pattern(found);
    assert_eq!(modules.len(), 2);
    assert_eq!(modules.pattern(0), "a");
    assert_eq!(names(&modules, 0), strings(&["x"]));
    assert_eq!(modules.pattern(1), "b");
    assert_eq!(names(&modules, 1), strings(&["z", "y", "z"]));
}

#[test]
fn families_ascend_whatever_the_order_found() {
    let found = listings(&[
        &["s/m/1"],
        &["s/c/1"],
        &["s/x/1"],
        &["s/a/1"],
        &["s/k/1"],
        &["s/b/1"],
        &["s/z/1"],
        &["s/d/1"],
    ]);
    let modules = find_mods(&found);
    let patterns: Vec<String> =
        (0..modules.len()).map(|index| modules.pattern(index).to_string()).collect();
    assert_eq!(patterns, strings(&["a", "b", "c", "d", "k", "m", "x", "z"]));
    for index in 0..modules.len() {
        assert_eq!(names(&modules, index), strings(&["1"]));
    }
}

#[test]
fn every_module_found_stands_in_its_family() {
    let found = listings(&[&["r/p/c", "r/p/a", "r/p/e"], &[], &["r/q/d", "r/q/b"]]);
    let modules = find_mods(&found);
    let mut count = 0;
    for index in 0..modules.len() {
        for module in modules.members(index) {
            assert_eq!(module.pattern(), modules.pattern(index));
            assert_eq!(module.path(), format!("r/{}/{}", module.pattern(), module.name()));
            assert!(found.iter().any(|listing| listing.contains(&module.path().to_string())));
            count += 1;
        }
    }
    assert_eq!(count, 5);
}

#[test]
fn listings_are_visited_in_turn_each_in_ascending_order() {
    let found = listings(&[&["s/b/z", "s/b/a", "s/b/m"], &["s/b/k", "s/b/b"]]);
    let modules = find_mods(&found);
    assert_eq!(modules.len(), 1);
    assert_eq!(names(&modules, 0), strings(&["a", "m", "z", "b", "k"]));
}

#[test]
fn the_visit_does_not_depend_on_the_order_found() {
    let one = listings(&[&["s/p/c", "s/p/a", "s/p/b"], &["s/q/y", "s/q/x"]]);
    let other = listings(&[&["s/p/b", "s/p/c", "s/p/a"], &["s/q/x", "s/q/y"]]);
    let first = find_mods(&one);
    let second = find_mods(&other);
    assert_eq!(first.len(), second.len());
    for index in 0..first.len() {
        assert_eq!(first.pattern(index), second.pattern(index));
        assert_eq!(names(&first, index), names(&second, index));
    }
    assert_eq!(update_readme(&first).1.text(), update_readme(&second).1.text());
}

#[test]
fn round_trip() {
    let found = listings(&[
        &["root/behavioral/strategy", "root/behavioral/command"],
        &["root/creational/factory_method"],
    ]);
    let modules = find_mods(&found);
    assert_eq!(modules.len(), 2);
    assert_eq!(modules.pattern(0), "behavioral");
    assert_eq!(names(&modules, 0), strings(&["command", "strategy"]));
    assert_eq!(modules.pattern(1), "creational");
    assert_eq!(names(&modules, 1), strings(&["factory_method"]));

    let files = update_mods(&modules);
    assert_eq!(files.len(), 2);
    assert_eq!(files[0].0, "src/behavioral.rs");
    assert_eq!(
        files[0].1.lines(),
        &strings(&["declare submodule command;", "declare submodule strategy;"])
    );
    assert_eq!(files[0].1.text(), "declare submodule command;\ndeclare submodule strategy;\n");
    assert_eq!(files[1].0, "src/creational.rs");
    assert_eq!(files[1].1.lines(), &strings(&["declare submodule factory_method;"]));
    assert_eq!(files[1].1.text(), "declare submodule factory_method;\n");

    let (path, readme) = update_readme(&modules);
    assert_eq!(path, "README.md");
    let expected = format!(
        "{}{}",
        HEADER,
        "### behavioral\n\
- [command](root/behavioral/command)\n\
- [strategy](root/behavioral/strategy)\n\
### creational\n\
- [factory_method](root/creational/factory_method)\n"
    );
    assert_eq!(readme.text(), expected);
}

#[test]
fn empty_root() {
    let modules = find_mods(&listings(&[]));
    assert_eq!(modules.len(), 0);
    assert!(update_mods(&modules).is_empty());
    let (path, readme) = update_readme(&modules);
    assert_eq!(path, "README.md");
    assert_eq!(readme.lines().len(), 4);
    assert_eq!(readme.text(), HEADER);
}

#[test]
fn rendering_twice_gives_the_same_text() {
    let found = listings(&[&["s/q/b", "s/q/a"], &["s/p/a"]]);
    let first = find_mods(&found);
    let second = find_mods(&found);
    assert_eq!(update_readme(&first).1.text(), update_readme(&first).1.text());
    assert_eq!(update_readme(&first).1.text(), update_readme(&second).1.text());
    let files = update_mods(&first);
    let again = update_mods(&second);
    assert_eq!(files.len(), again.len());
    for (one, other) in files.iter().zip(again.iter()) {
        assert_eq!(one.0, other.0);
        assert_eq!(one.1.text(), other.1.text());
    }
}
