use stock_analysis::json::pretty_print::pretty_print;
use stock_analysis::json::sanitize::sanitize;
use stock_analysis::pattern::join_group;

fn pretty(text: &str) -> String {
    pretty_print(text).unwrap()
}

#[test]
fn pretty_print_lays_an_object_out() {
    assert_eq!(
        pretty("{\"property1\":\"value 1\",\"property2\":\"value 2\"}"),
        "{\n\t\"property1\": \"value 1\",\n\t\"property2\": \"value 2\"\n}"
    );
}

#[test]
fn pretty_print_indents_by_depth() {
    assert_eq!(
        pretty("{\"a\":[1,{\"b\":true}],\"c\":null}"),
        "{\n\t\"a\": [\n\t\t1,\n\t\t{\n\t\t\t\"b\": true\n\t\t}\n\t],\n\t\"c\": null\n}"
    );
}

#[test]
fn pretty_print_leaves_string_literals_alone() {
    assert_eq!(pretty("{\"a,b:{c}]\":\"[x]\"}"), "{\n\t\"a,b:{c}]\": \"[x]\"\n}");
    assert_eq!(pretty("\"}}}\""), "\"}}}\"");
}

#[test]
fn pretty_print_of_plain_text() {
    assert_eq!(pretty(""), "");
    assert_eq!(pretty("42"), "42");
    assert_eq!(pretty("a:b"), "a: b");
    assert_eq!(pretty("1,2"), "1,\n2");
    assert_eq!(pretty("[]"), "[\n\t\n]");
    assert_eq!(pretty("[["), "[\n\t[\n\t\t");
}

#[test]
fn pretty_print_refuses_a_bracket_that_was_not_opened() {
    assert_eq!(pretty_print("}"), None);
    assert_eq!(pretty_print("[]]"), None);
    assert_eq!(pretty_print("{\"a\":1}}{"), None);
    assert_eq!(pretty_print("\"[\"]"), None);
}

#[test]
fn sanitize_takes_the_layout_out() {
    let text = "{\n    \"property1\": \"value 1\",\n    \"property2\": \"value 2\"\n}";
    assert_eq!(
        sanitize(text),
        Some("{\"property1\":\"value 1\",\"property2\":\"value 2\"}".to_string())
    );
}

#[test]
fn sanitize_keeps_what_has_no_layout() {
    assert_eq!(sanitize(""), Some(String::new()));
    assert_eq!(sanitize(" \n\t "), Some(String::new()));
    assert_eq!(sanitize("{\"a\":1}"), Some("{\"a\":1}".to_string()));
    assert_eq!(sanitize("[ 1 , 2 , true ]"), Some("[1,2,true]".to_string()));
}

#[test]
fn sanitize_undoes_pretty_print() {
    let flat = "{\"test\":\"testing 1\",\"test4\":100,\"test6\":{\"t\":\"x y\"},\"test7\":[{\"u\":true}]}";
    assert_eq!(sanitize(&pretty(flat)), Some(flat.to_string()));
}

fn groups(texts: &[Option<&str>]) -> Vec<Option<String>> {
    texts.iter().map(|t| t.map(|s| s.to_string())).collect()
}

#[test]
fn join_group_joins_one_group_of_each_match() {
    let matches = vec![
        groups(&[Some("ab"), Some("a"), Some("b")]),
        groups(&[Some("c"), None, Some("c")]),
        groups(&[Some("d")]),
        groups(&[Some("ef"), Some("e"), Some("f")]),
    ];
    assert_eq!(join_group(&matches, 0), "abcdef");
    assert_eq!(join_group(&matches, 1), "ae");
    assert_eq!(join_group(&matches, 2), "bcf");
    assert_eq!(join_group(&matches, 3), "");
    assert_eq!(join_group(&Vec::new(), 0), "");
}
