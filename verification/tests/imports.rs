use mainstage_core::imports::import_aliases;

fn pairs(v: Vec<(String, String)>) -> Vec<(String, String)> { v }

#[test]
fn reads_import_lines() {
    let text = "import \"fs\" as files;\nworkspace main {}\n  import net as n  \r\n";
    assert_eq!(pairs(import_aliases(text)), vec![
        ("files".to_string(), "fs".to_string()),
        ("n".to_string(), "net".to_string()),
    ]);
}

#[test]
fn ignores_lines_that_are_not_imports() {
    assert!(import_aliases("").is_empty());
    assert!(import_aliases("importx a as b\nimport a b c\nimport a as\n").is_empty());
    assert!(import_aliases("// import a as b").is_empty());
}

#[test]
fn strips_quotes_and_semicolons_only_at_the_ends() {
    let v = import_aliases("import \"\"a\"b\"\" as c;; extra\nimport m\tas\tx");
    assert_eq!(v, vec![
        ("c".to_string(), "a\"b".to_string()),
        ("x".to_string(), "m".to_string()),
    ]);
}

#[test]
fn unicode_white_space_separates_words() {
    let v = import_aliases("\u{3000}import\u{a0}mod as al\u{2003}ias");
    // "import" followed by a no-break space is no "import " prefix
    assert!(v.is_empty());
    let v = import_aliases("import mod\u{2003}as al");
    assert_eq!(v, vec![("al".to_string(), "mod".to_string())]);
}
