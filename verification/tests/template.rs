use marchive::template::{
    braced_name_regex, escape, fill_template, format_line, template_names, Pattern, PatternError,
    Patterns,
};
use marchive::values::Values;

fn values(pairs: &[(&str, &str)]) -> Values {
    let mut values = Values::new();
    for (key, value) in pairs {
        values.insert(key.to_string(), value.to_string());
    }
    values
}

#[test]
fn format_line_replaces_each_placeholder() {
    let braced = braced_name_regex().unwrap();
    let filled = format_line(
        &braced,
        "mv {file} /pod{pod}/{object}.bak",
        &values(&[("file", "/tmp/in"), ("pod", "3"), ("object", "o1"), ("spare", "x")]),
    );
    assert_eq!(filled, Ok("mv /tmp/in /pod3/o1.bak".to_string()));
}

#[test]
fn format_line_without_placeholder_is_the_format() {
    let braced = braced_name_regex().unwrap();
    assert_eq!(format_line(&braced, "plain text", &values(&[])), Ok("plain text".to_string()));
    assert_eq!(format_line(&braced, "", &values(&[])), Ok(String::new()));
    assert_eq!(format_line(&braced, "{}{a b}", &values(&[])), Ok("{}{a b}".to_string()));
}

#[test]
fn format_line_replaces_neighbours_and_repeats() {
    let braced = braced_name_regex().unwrap();
    assert_eq!(
        format_line(&braced, "{a}{b}{a}", &values(&[("a", "1"), ("b", "{a}")])),
        Ok("1{a}1".to_string())
    );
}

#[test]
fn format_line_reports_the_first_name_without_value() {
    let braced = braced_name_regex().unwrap();
    assert_eq!(
        format_line(&braced, "{a} {missing} {gone}", &values(&[("a", "1")])),
        Err("no value associated with missing could be found".to_string())
    );
}

#[test]
fn fill_template_joins_parts_and_values() {
    let literals = vec!["<".to_string(), "|".to_string(), ">".to_string()];
    let names = vec![Some("x".to_string()), Some("y".to_string())];
    assert_eq!(
        fill_template(&literals, &names, &values(&[("x", "1"), ("y", "2")])),
        Ok("<1|2>".to_string())
    );
}

#[test]
fn fill_template_reports_what_does_not_line_up() {
    let names = vec![Some("x".to_string())];
    let known = values(&[("x", "1")]);
    assert_eq!(
        fill_template(&vec!["a".to_string()], &names, &known),
        Err("template parts and placeholders do not line up".to_string())
    );
    assert_eq!(
        fill_template(&Vec::new(), &Vec::new(), &known),
        Err("template parts and placeholders do not line up".to_string())
    );
    assert_eq!(
        fill_template(&vec!["a".to_string(), "b".to_string()], &vec![None], &known),
        Err("placeholder without a name".to_string())
    );
    assert_eq!(
        fill_template(&vec!["a".to_string()], &vec![Some("y".to_string())], &known),
        Err("no value associated with y could be found".to_string())
    );
}

#[test]
fn template_names_lists_placeholders_in_order() {
    let braced = braced_name_regex().unwrap();
    assert_eq!(
        template_names(&braced, "cmd {file} --pod {pod} {file} {_}"),
        vec!["file".to_string(), "pod".to_string(), "file".to_string(), "_".to_string()]
    );
    assert_eq!(template_names(&braced, "nothing here"), Vec::<String>::new());
}

#[test]
fn escape_quotes_meta_characters() {
    assert_eq!(escape("{task}/a.b"), "\\{task\\}/a\\.b");
    assert_eq!(escape("plain_text/9"), "plain_text/9");
    assert_eq!(escape("\\.+*?()|[]{}^$#&-~"), "\\\\\\.\\+\\*\\?\\(\\)\\|\\[\\]\\{\\}\\^\\$\\#\\&\\-\\~");
    assert_eq!(escape(""), "");
    for text in ["{task}/pod{pod}/{_}.list", "a-b~c&d#e", "x\\y|z", "snow \u{2603} (man)", "%!\"'/,:;<=>@_`"] {
        assert_eq!(escape(text), regex::escape(text), "{text:?}");
    }
}

#[test]
fn compile_refuses_what_is_no_pattern() {
    assert_eq!(Pattern::new("a(b").err(), Some(PatternError::Refused));
    assert_eq!(Pattern::new("(?<a>x)(?<a>y)").err(), Some(PatternError::Refused));
    assert_eq!(Pattern::new("^a+$").unwrap().as_str(), "^a+$");
    let patterns = Patterns::new().unwrap();
    assert_eq!(patterns.braced.as_str(), "\\{(?<name>\\w+)\\}");
    assert_eq!(patterns.escaped.as_str(), "\\\\\\{(?<name>\\w+)\\\\\\}");
}

#[test]
fn values_keep_one_value_per_name() {
    let mut table = Values::new();
    assert_eq!(table.len(), 0);
    assert_eq!(table.insert("a".to_string(), "1".to_string()), None);
    assert_eq!(table.insert("b".to_string(), "2".to_string()), None);
    assert_eq!(table.insert("a".to_string(), "3".to_string()), Some("1".to_string()));
    assert_eq!(table.len(), 2);
    assert_eq!(table.get("a"), Some(&"3".to_string()));
    assert_eq!(table.get("c"), None);
    assert!(table.contains_key("b"));
    assert!(!table.contains_key("B"));
    assert_eq!(table.remove("b"), Some("2".to_string()));
    assert_eq!(table.remove("b"), None);
    assert_eq!(table.len(), 1);
}

#[test]
fn values_are_equal_whatever_the_order() {
    let one = values(&[("a", "1"), ("b", "2")]);
    let other = values(&[("b", "2"), ("a", "1")]);
    assert!(one.same_as(&other));
    assert!(one.same_as(&one.duplicate()));
    assert!(!one.same_as(&values(&[("a", "1")])));
    assert!(!one.same_as(&values(&[("a", "1"), ("b", "3")])));
    assert!(!one.same_as(&values(&[("a", "1"), ("c", "2")])));
    assert!(values(&[]).same_as(&Values::new()));
}
