// Each test builds its parameters with the calls that the `tmpl!` forms stand for:
// `key = value` is `insert_param(key, value.to_string())`, and `name { .. }`
// is `add_impl(name)` followed by one `push` per parameter set.
use just_template::{Params, Template};

#[test]
fn test_macros_basic_param() {
    let mut tmpl = Template::from("Hello, <<<name>>>!".to_string());

    tmpl.insert_param("name".to_string(), "World".to_string());

    assert_eq!(tmpl.expand().unwrap(), "Hello, World!");
}

#[test]
fn test_macros_multi_param() {
    let mut tmpl = Template::from("<<<a>>> + <<<b>>> = <<<c>>>".to_string());

    tmpl.insert_param("a".to_string(), "1".to_string());
    tmpl.insert_param("b".to_string(), "2".to_string());
    tmpl.insert_param("c".to_string(), "3".to_string());

    assert_eq!(tmpl.expand().unwrap(), "1 + 2 = 3");
}

#[test]
fn test_macros_impl_blocks() {
    let mut tmpl = Template::from(
        r#"
>>>>>>>>>> arms
@@@ >>> arms
    "<<<crate_name>>>" => Some(<<<crate_name>>>::exec(data, params).await),
@@@ <<<
"#
        .trim()
        .to_string(),
    );

    let arms = tmpl.add_impl("arms".to_string());
    arms.push(Params::from_pairs(vec![("crate_name".to_string(), "my".to_string())]));
    arms.push(Params::from_pairs(vec![("crate_name".to_string(), "you".to_string())]));

    let expanded = tmpl.expand().unwrap();
    assert!(expanded.contains(r#""my" => Some(my::exec(data, params).await)"#));
    assert!(expanded.contains(r#""you" => Some(you::exec(data, params).await)"#));
}

#[test]
fn test_macros_display_block_global_hidden_by_default() {
    let tmpl = Template::from(
        r#"
visible line
??? >>> debug
    hidden line
??? <<<
visible end
"#
        .trim()
        .to_string(),
    );

    let expanded = tmpl.expand().unwrap();
    assert!(expanded.contains("visible line"));
    assert!(expanded.contains("visible end"));
    assert!(!expanded.contains("hidden line"));
}

#[test]
fn test_macros_display_block_global_shown_via_param() {
    let mut tmpl = Template::from(
        r#"
visible line
??? >>> debug
    shown line
??? <<<
visible end
"#
        .trim()
        .to_string(),
    );

    tmpl.insert_param("debug".to_string(), true.to_string());

    let expanded = tmpl.expand().unwrap();
    assert!(expanded.contains("visible line"));
    assert!(expanded.contains("visible end"));
    assert!(expanded.contains("shown line"));
}

#[test]
fn test_macros_display_block_inside_impl_area_hidden_by_default() {
    let mut tmpl = Template::from(
        r#"
>>>>>>>>>> arms
@@@ >>> arms
    <<<crate_name>>> => exec,
??? >>> extra
    <<<crate_name>>> => metrics,
??? <<<
@@@ <<<
"#
        .trim()
        .to_string(),
    );

    let arms = tmpl.add_impl("arms".to_string());
    arms.push(Params::from_pairs(vec![("crate_name".to_string(), "my".to_string())]));

    let expanded = tmpl.expand().unwrap();
    assert!(expanded.contains(r#"my => exec"#));
    assert!(!expanded.contains(r#"my => metrics"#));
}

#[test]
fn test_macros_display_block_inside_impl_area_shown_by_global_param() {
    let mut tmpl = Template::from(
        r#"
>>>>>>>>>> arms
@@@ >>> arms
    <<<crate_name>>> => exec,
??? >>> extra
    <<<crate_name>>> => metrics,
??? <<<
@@@ <<<
"#
        .trim()
        .to_string(),
    );

    tmpl.insert_param("extra".to_string(), true.to_string());
    let arms = tmpl.add_impl("arms".to_string());
    arms.push(Params::from_pairs(vec![("crate_name".to_string(), "my".to_string())]));
    arms.push(Params::from_pairs(vec![("crate_name".to_string(), "you".to_string())]));

    let expanded = tmpl.expand().unwrap();
    assert!(expanded.contains(r#"my => exec"#));
    assert!(expanded.contains(r#"my => metrics"#));
    assert!(expanded.contains(r#"you => exec"#));
    assert!(expanded.contains(r#"you => metrics"#));
}

#[test]
fn test_macros_display_block_inside_impl_area_shown_by_arm_param() {
    let mut tmpl = Template::from(
        r#"
>>>>>>>>>> arms
@@@ >>> arms
    <<<crate_name>>> => exec,
??? >>> extra
    <<<crate_name>>> => metrics,
??? <<<
@@@ <<<
"#
        .trim()
        .to_string(),
    );

    let arms = tmpl.add_impl("arms".to_string());
    arms.push(Params::from_pairs(vec![("crate_name".to_string(), "my".to_string())]));
    arms.push(Params::from_pairs(vec![
        ("crate_name".to_string(), "you".to_string()),
        ("extra".to_string(), true.to_string()),
    ]));

    let expanded = tmpl.expand().unwrap();
    assert!(expanded.contains(r#"my => exec"#));
    assert!(!expanded.contains(r#"my => metrics"#));
    assert!(expanded.contains(r#"you => exec"#));
    assert!(expanded.contains(r#"you => metrics"#));
}
