use flavours::config::ExtraSource;
use flavours::update::{
    list_with_extras, parse_operation, parse_repo_list, parse_yml_line, resolve_sources,
    sources_text,
    UpdateOperation, DEFAULT_SCHEMES_SOURCE, DEFAULT_TEMPLATES_SOURCE,
};

#[test]
fn yml_lines() {
    let (name, repo) = parse_yml_line("gruvbox: https://github.com/dawikur/base16-gruvbox-scheme");
    assert_eq!(name, "gruvbox");
    assert_eq!(repo, "https://github.com/dawikur/base16-gruvbox-scheme");
    let (name, repo) = parse_yml_line("x:  a : b \t");
    assert_eq!(name, "x");
    assert_eq!(repo, "a:b");
    let (name, repo) = parse_yml_line("no colon here");
    assert_eq!(name, "no colon here");
    assert_eq!(repo, "");
}

#[test]
fn sources_from_file_and_config() {
    let file = Some(String::from("schemes: https://s.example/a.git\ntemplates: https://t.example/b.git\n"));
    let (s, t) = resolve_sources(&None, &None, &file);
    assert_eq!(s, "https://s.example/a.git");
    assert_eq!(t, "https://t.example/b.git");
    let (s, t) = resolve_sources(&Some(String::from("mine")), &None, &file);
    assert_eq!(s, "mine");
    assert_eq!(t, "https://t.example/b.git");
    let (s, t) = resolve_sources(&None, &None, &None);
    assert_eq!(s, DEFAULT_SCHEMES_SOURCE);
    assert_eq!(t, DEFAULT_TEMPLATES_SOURCE);
}

#[test]
fn sources_file_text() {
    assert_eq!(sources_text("a", "b"), "schemes: a\ntemplates: b");
    let (s, t) = resolve_sources(&None, &None, &Some(sources_text("x", "y")));
    assert_eq!((s.as_str(), t.as_str()), ("x", "y"));
}

#[test]
fn repository_lists_skip_comments_and_blanks() {
    let list = parse_repo_list("# comment\none: https://a\n\ntwo:https://b\n  :x\n");
    let pairs: Vec<(&str, &str)> = list.iter().map(|(a, b)| (a.as_str(), b.as_str())).collect();
    assert_eq!(pairs, vec![("one", "https://a"), ("two", "https://b"), ("  ", "x")]);
}

#[test]
fn operations() {
    assert_eq!(parse_operation("lists"), Some(UpdateOperation::Lists));
    assert_eq!(parse_operation("schemes"), Some(UpdateOperation::Schemes));
    assert_eq!(parse_operation("templates"), Some(UpdateOperation::Templates));
    assert_eq!(parse_operation("all"), Some(UpdateOperation::All));
    assert_eq!(parse_operation("everything"), None);
}

#[test]
fn extra_sources_are_merged_in_order() {
    let extras = vec![
        ExtraSource { name: String::from("mine"), source: String::from("https://m") },
        ExtraSource { name: String::from("alpha"), source: String::from("https://a") },
    ];
    let lines = list_with_extras("zeta: https://z\nbeta: https://b\nzeta: https://z\n", &extras);
    assert_eq!(
        lines,
        vec!["alpha: https://a", "beta: https://b", "mine: https://m", "zeta: https://z", "zeta: https://z"]
    );
}
