use flavours::apply::{
    all_items, current_scheme_name, hook_argv, hook_command, random, shell_template,
    should_run_hook, subtemplate_name, ApplyError,
};
use flavours::config::ConfigItem;

fn item(file: &str) -> ConfigItem {
    ConfigItem {
        file: String::from(file),
        template: String::from("t"),
        subtemplate: None,
        hook: None,
        rewrite: None,
        light: None,
        start: None,
        end: None,
    }
}

#[test]
fn hook_command_substitutes_every_placeholder() {
    assert_eq!(hook_command("sh -c '{}'", "echo hi"), "sh -c 'echo hi'");
    assert_eq!(hook_command("{} && {}", "x"), "x && x");
    assert_eq!(hook_command("{{}}", "x"), "{x}");
    assert_eq!(hook_command("plain", "x"), "plain");
}

#[test]
fn shell_must_hold_a_placeholder() {
    assert_eq!(shell_template(None).unwrap(), "{}");
    assert_eq!(shell_template(Some(String::from("bash -c '{}'"))).unwrap(), "bash -c '{}'");
    assert_eq!(shell_template(Some(String::from("bash -c"))), Err(ApplyError::ShellWithoutPlaceholder));
    assert_eq!(shell_template(Some(String::from("{ }"))), Err(ApplyError::ShellWithoutPlaceholder));
}

#[test]
fn hook_words() {
    let argv = hook_argv("sh -c '{}'", &Some(String::from("notify-send \"a b\""))).unwrap().unwrap();
    assert_eq!(argv, vec!["sh", "-c", "notify-send \"a b\""]);
    assert_eq!(hook_argv("sh -c '{}'", &None).unwrap(), None);
    let direct = shell_template(None).unwrap();
    let argv = hook_argv(&direct, &Some(String::from("pkill -USR1 kitty"))).unwrap().unwrap();
    assert_eq!(argv, vec!["pkill", "-USR1", "kitty"]);
    assert_eq!(hook_argv("{}", &Some(String::from("   "))).unwrap(), None);
    assert_eq!(hook_argv("{}", &Some(String::from("echo 'open"))), Err(ApplyError::HookParseError));
}

#[test]
fn light_mode_skips_heavy_hooks() {
    assert!(should_run_hook(false, Some(false)));
    assert!(should_run_hook(true, None));
    assert!(should_run_hook(true, Some(true)));
    assert!(!should_run_hook(true, Some(false)));
}

#[test]
fn subtemplates() {
    assert_eq!(subtemplate_name(&None, "gruvbox", true), "default");
    assert_eq!(subtemplate_name(&Some(String::from("light")), "gruvbox", true), "light");
    assert_eq!(subtemplate_name(&Some(String::from("{scheme}")), "gruvbox", true), "gruvbox");
    assert_eq!(subtemplate_name(&Some(String::from("{scheme}")), "gruvbox", false), "default");
}

#[test]
fn items_are_merged() {
    let merged = all_items(Some(vec![item("a"), item("b")]), Some(vec![item("c")])).unwrap();
    let files: Vec<&str> = merged.iter().map(|i| i.file.as_str()).collect();
    assert_eq!(files, vec!["a", "b", "c"]);
    let merged = all_items(None, Some(vec![item("c")])).unwrap();
    assert_eq!(merged.len(), 1);
    assert!(matches!(all_items(None, None), Err(ApplyError::NoItems)));
    assert!(matches!(all_items(Some(Vec::new()), Some(Vec::new())), Err(ApplyError::NoItems)));
}

#[test]
fn random_picks_one_of_the_values() {
    let values = vec![String::from("a"), String::from("b"), String::from("c")];
    for _ in 0..20 {
        let v = random(values.clone()).unwrap();
        assert!(values.contains(&v));
    }
    assert_eq!(random(vec![String::from("only")]).unwrap(), "only");
    assert_eq!(random(Vec::new()), Err(ApplyError::SchemeNotFound));
}

#[test]
fn current_scheme_from_its_file() {
    assert_eq!(current_scheme_name("gruvbox-dark-hard\n").unwrap(), "gruvbox-dark-hard");
    assert_eq!(current_scheme_name(" one two\t").unwrap(), "onetwo");
    assert_eq!(current_scheme_name(" \n\t"), Err(ApplyError::NoCurrentScheme));
    assert_eq!(current_scheme_name(""), Err(ApplyError::NoCurrentScheme));
}
