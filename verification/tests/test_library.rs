use just_template::basic;
use just_template::expand::{apply_param, expand_lines, read_impl_areas, scan_lines};
use just_template::text::{
    chars_of, join_lines_chars, replace_chars, split_lines_chars, string_of, trim_chars,
};
use just_template::{LineKind, Params, Template, TemplateLine};

fn chars(s: &str) -> Vec<char> {
    s.chars().collect()
}

fn pairs(kvs: &[(&str, &str)]) -> Params {
    Params::from_pairs(kvs.iter().map(|(k, v)| (k.to_string(), v.to_string())).collect())
}

#[test]
fn placeholder_replaced_everywhere() {
    let mut t = Template::from("<<<x>>>-<<<x>>>-<<<y>>>");
    t.insert_param("x".to_string(), "1".to_string());
    assert_eq!(t.expand().unwrap(), "1-1-<<<y>>>");
}

#[test]
fn later_insert_replaces_value() {
    let mut t = Template::from("<<<x>>>");
    t.insert_param("x".to_string(), "old".to_string());
    t.insert_param("x".to_string(), "new".to_string());
    assert_eq!(t.expand().unwrap(), "new");
}

#[test]
fn params_replace_in_insertion_order() {
    let mut t = Template::from("<<<a>>>");
    t.insert_param("a".to_string(), "<<<b>>>".to_string());
    t.insert_param("b".to_string(), "x".to_string());
    assert_eq!(t.expand().unwrap(), "x");
    let mut u = Template::from("<<<a>>>");
    u.insert_param("b".to_string(), "x".to_string());
    u.insert_param("a".to_string(), "<<<b>>>".to_string());
    assert_eq!(u.expand().unwrap(), "<<<b>>>");
}

#[test]
fn area_end_without_start_fails() {
    let t = Template::from("a\n@@@ <<<\nb");
    assert!(t.expand().is_none());
}

#[test]
fn nested_area_start_fails() {
    let t = Template::from("@@@ >>> a\n@@@ >>> b\n@@@ <<<\n@@@ <<<");
    assert!(t.expand().is_none());
}

#[test]
fn to_string_of_failing_template_is_empty() {
    let t = Template::from("@@@ <<<");
    assert_eq!(t.to_string(), "");
    let mut u = Template::from("  <<<n>>>  ");
    u.insert_param("n".to_string(), "v".to_string());
    assert_eq!(u.to_string(), "v");
}

#[test]
fn unterminated_area_is_dropped() {
    let t = Template::from("keep\n@@@ >>> a\nlost");
    assert_eq!(t.expand().unwrap(), "keep");
}

#[test]
fn area_names_are_snake_cased() {
    let mut t = Template::from("begin\n>>>>>>>>>> my-arms\n@@@ >>> MyArms\nitem <<<v>>>\n@@@ <<<\nend");
    let arms = t.add_impl("my_arms".to_string());
    arms.push(pairs(&[("v", "1")]));
    arms.push(pairs(&[("v", "2")]));
    assert_eq!(t.expand().unwrap(), "begin\nitem 1\nitem 2\nend");
}

#[test]
fn mark_without_area_is_dropped() {
    let t = Template::from("a\n>>>>>>>>>> none\nb");
    assert_eq!(t.expand().unwrap(), "a\nb");
}

#[test]
fn area_without_block_leaves_nothing() {
    let t = Template::from("a\n>>>>>>>>>> x\n@@@ >>> x\ncode\n@@@ <<<\nb");
    assert_eq!(t.expand().unwrap(), "a\nb");
}

#[test]
fn add_impl_twice_reuses_block() {
    let mut t = Template::from(">>>>>>>>>> x\n@@@ >>> x\n<<<v>>>\n@@@ <<<");
    t.add_impl("x".to_string()).push(pairs(&[("v", "1")]));
    t.add_impl("x".to_string()).push(pairs(&[("v", "2")]));
    assert_eq!(t.add_impl("x".to_string()).len(), 2);
    assert_eq!(t.expand().unwrap(), "1\n2");
}

#[test]
fn arm_values_and_global_values() {
    let mut t = Template::from(">>>>>>>>>> x\n@@@ >>> x\n<<<a>>> <<<g>>>\n@@@ <<<\ntail <<<g>>>");
    t.insert_param("g".to_string(), "G".to_string());
    t.add_impl("x".to_string()).push(pairs(&[("a", "A")]));
    assert_eq!(t.expand().unwrap(), "A G\ntail G");
}

#[test]
fn display_markers_removed_and_stray_end_dropped() {
    let mut t = Template::from("x\n??? <<<\n??? >>> on\n  in\n??? <<<\ny");
    t.insert_param("on".to_string(), "".to_string());
    assert_eq!(t.expand().unwrap(), "x\n  in\ny");
}

#[test]
fn display_block_unterminated_hidden_to_end() {
    let t = Template::from("x\n??? >>> off\nhidden\nstill hidden");
    assert_eq!(t.expand().unwrap(), "x");
}

#[test]
fn display_nested_all_on_keeps_non_markers() {
    let mut t = Template::from("??? >>> A\na\n  ??? >>> B\n  b\n  ??? <<<\nc\n??? <<<");
    t.insert_param("A".to_string(), "".to_string());
    t.insert_param("B".to_string(), "".to_string());
    assert_eq!(t.expand().unwrap(), "a\n  b\nc");
}

#[test]
fn display_all_off_keeps_outside_lines() {
    let t = Template::from("x\n??? >>> A\na\n??? >>> B\nb\n??? <<<\nc\n??? <<<\ny");
    assert_eq!(t.expand().unwrap(), "x\ny");
}

#[test]
fn plain_template_expansion() {
    let mut t = Template::from("  \t first <<<p>>>\nsecond\n\n");
    t.insert_param("p".to_string(), "P".to_string());
    assert_eq!(t.expand().unwrap(), "first P\nsecond");
}

#[test]
fn expansion_is_trimmed_of_unicode_whitespace() {
    let t = Template::from("\u{3000}\u{a0} body \u{2028}");
    assert_eq!(t.expand().unwrap(), "body");
}

#[test]
fn expand_lines_uses_given_names() {
    let mut t = Template::from("");
    t.add_impl("n".to_string()).push(pairs(&[("v", "1")]));
    let lines = vec![
        TemplateLine { text: chars("head"), kind: LineKind::Text, name: vec![] },
        TemplateLine { text: chars(">>>>>>>>>> whatever"), kind: LineKind::Mark, name: chars("n") },
        TemplateLine { text: chars("@@@ >>> whatever"), kind: LineKind::AreaBegin, name: chars("n") },
        TemplateLine { text: chars("v=<<<v>>>"), kind: LineKind::Text, name: vec![] },
        TemplateLine { text: chars("@@@ <<<"), kind: LineKind::AreaEnd, name: vec![] },
    ];
    let out = expand_lines(&t, &lines).unwrap();
    assert_eq!(string_of(&out), "head\nv=1");
    let bad = vec![TemplateLine { text: chars("@@@ <<<"), kind: LineKind::AreaEnd, name: vec![] }];
    assert!(expand_lines(&t, &bad).is_none());
}

#[test]
fn scan_lines_classifies_and_names() {
    let lines = scan_lines(&chars("  @@@ >>> Brew Coffee\n>>>>>>>>>>>>>>>  brewCoffee\n@@@ <<<\ntext"));
    assert_eq!(lines.len(), 4);
    assert_eq!(lines[0].kind, LineKind::AreaBegin);
    assert_eq!(string_of(&lines[0].name), "brew_coffee");
    assert_eq!(lines[1].kind, LineKind::Mark);
    assert_eq!(string_of(&lines[1].name), "brew_coffee");
    assert_eq!(lines[2].kind, LineKind::AreaEnd);
    assert_eq!(lines[3].kind, LineKind::Text);
    assert!(lines[3].name.is_empty());
}

#[test]
fn params_operations() {
    let mut p = Params::new();
    assert_eq!(p.len(), 0);
    p.insert("a".to_string(), "1".to_string());
    p.insert("b".to_string(), "2".to_string());
    p.insert("a".to_string(), "3".to_string());
    assert_eq!(p.len(), 2);
    assert_eq!(p.get("a"), Some("3".to_string()));
    assert_eq!(p.get("c"), None);
    assert!(p.contains_key("b"));
    assert!(!p.contains_key("c"));
    assert_eq!(string_of(p.key_at(0)), "a");
    let q = pairs(&[("k", "x"), ("k", "y")]);
    assert_eq!(q.len(), 1);
    assert_eq!(q.get("k"), Some("y".to_string()));
    assert_eq!(q.clone().get("k"), Some("y".to_string()));
}

#[test]
fn text_operations() {
    let s = chars("a\n\nb\n");
    let ls = split_lines_chars(&s);
    assert_eq!(ls.len(), 4);
    assert!(ls[1].is_empty() && ls[3].is_empty());
    assert_eq!(join_lines_chars(&ls), s);
    assert_eq!(string_of(&replace_chars(&chars("aaa"), &chars("aa"), &chars("b"))), "ba");
    assert_eq!(string_of(&trim_chars(&chars(" \n x y \t"))), "x y");
    assert_eq!(chars_of("héllo"), chars("héllo"));
}

#[test]
fn basic_dialect_expands_blocks() {
    let mut t = basic::Template::from(">>>>>>>>>> arms\n@@@ >>> arms\n<<<n>>>!\n@@@ <<<\n<<<g>>>".to_string());
    t.insert_param("g".to_string(), "end".to_string());
    let arms = t.add_impl("arms".to_string());
    arms.push(pairs(&[("n", "a")]));
    arms.push(pairs(&[("n", "b")]));
    assert_eq!(t.expand().unwrap(), "a!\nb!\nend");
}

#[test]
fn basic_dialect_keeps_display_markers() {
    let t = basic::Template::from("x\n??? >>> d\ny\n??? <<<".to_string());
    assert_eq!(t.expand().unwrap(), "x\n??? >>> d\ny\n??? <<<");
}

#[test]
fn basic_dialect_empty_block_leaves_line_break() {
    let t = basic::Template::from("a\n>>>>>>>>>> x\n@@@ >>> x\ncode\n@@@ <<<\nb".to_string());
    assert_eq!(t.expand().unwrap(), "a\n\nb");
    let bad = basic::Template::from("@@@ <<<".to_string());
    assert_eq!(bad.to_string(), "");
}

#[test]
fn clone_and_default() {
    let mut t = Template::from("<<<a>>>".to_string());
    t.insert_param("a".to_string(), "x".to_string());
    t.add_impl("b".to_string()).push(pairs(&[("c", "d")]));
    let u = t.clone();
    assert_eq!(t.expand().unwrap(), "x");
    assert_eq!(u.expand().unwrap(), "x");
    assert_eq!(Template::default().expand().unwrap(), "");
    assert_eq!(basic::Template::default().to_string(), "");
    let b = basic::Template::from("k".to_string());
    assert_eq!(b.clone().expand().unwrap(), "k");
}

#[test]
fn template_from_cow() {
    let mut t = Template::from(std::borrow::Cow::Borrowed("<<<a>>>!"));
    t.insert_param("a".to_string(), "x".to_string());
    assert_eq!(t.expand().unwrap(), "x!");
    let u = Template::from(std::borrow::Cow::Owned::<str>("owned".to_string()));
    assert_eq!(u.expand().unwrap(), "owned");
}

#[test]
fn param_order_does_not_matter() {
    let content = chars("a <<<x>>> b <<<y>>> <<<x>>> < c > <<<z>>>");
    let p1 = pairs(&[("x", "1"), ("y", "22")]);
    let p2 = pairs(&[("y", "22"), ("x", "1")]);
    let r1 = apply_param(&p1, &content);
    let r2 = apply_param(&p2, &content);
    assert_eq!(string_of(&r1), "a 1 b 22 1 < c > <<<z>>>");
    assert_eq!(r1, r2);
}

#[test]
fn param_replacement_idempotent() {
    let content = chars("<<<x>>><<<y>>> <<<x>>>");
    let p = pairs(&[("x", "xx"), ("y", "")]);
    let once = apply_param(&p, &content);
    let twice = apply_param(&p, &once);
    assert_eq!(string_of(&once), "xx xx");
    assert_eq!(once, twice);
}

#[test]
fn area_scan_keeps_outside_lines_and_closed_areas() {
    let lines = scan_lines(&chars(
        "top\n@@@ >>> a\none\ntwo\n@@@ <<<\nmid\n@@@ >>> b\nx\n@@@ <<<\n@@@ >>> a\nthree\n@@@ <<<\nend\n@@@ >>> c\nlost",
    ));
    let (content, areas) = read_impl_areas(&lines).unwrap();
    let texts: Vec<String> = content.iter().map(|l| string_of(&l.text)).collect();
    assert_eq!(texts, vec!["", "top", "mid", "end"]);
    let found: Vec<(String, String)> =
        areas.iter().map(|(n, c)| (string_of(n), string_of(c))).collect();
    assert_eq!(
        found,
        vec![
            ("a".to_string(), "one\ntwo".to_string()),
            ("b".to_string(), "x".to_string()),
            ("a".to_string(), "three".to_string()),
        ]
    );
}

#[test]
fn later_area_of_same_name_wins() {
    let mut t = Template::from("@@@ >>> a\nfirst\n@@@ <<<\n@@@ >>> a\nsecond\n@@@ <<<\n>>>>>>>>>> a");
    t.add_impl("a".to_string()).push(Params::new());
    assert_eq!(t.expand().unwrap(), "second");
}

#[test]
fn arm_parameter_order_does_not_matter() {
    let text = ">>>>>>>>>> x\n@@@ >>> x\n<<<a>>>+<<<b>>>\n@@@ <<<";
    let mut t1 = Template::from(text);
    t1.add_impl("x".to_string()).push(pairs(&[("a", "1"), ("b", "2")]));
    let mut t2 = Template::from(text);
    t2.add_impl("x".to_string()).push(pairs(&[("b", "2"), ("a", "1")]));
    assert_eq!(t1.expand().unwrap(), "1+2");
    assert_eq!(t2.expand().unwrap(), "1+2");
}

#[test]
fn scanned_names_are_snake_case() {
    let lines = scan_lines(&chars("@@@ >>> __Weird--Name..x\n>>>>>>>>>> already_snake_1"));
    assert_eq!(string_of(&lines[0].name), "weird_name_x");
    assert_eq!(string_of(&lines[1].name), "already_snake_1");
}
