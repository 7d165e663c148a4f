use crab::utils::{
    label, set_query_param, url_set_query_param, Form, FormElement, SelectElement,
};

fn select(name: Option<&str>, selected: Option<Option<&str>>) -> SelectElement {
    SelectElement {
        name: name.map(String::from),
        selected: selected.map(|value| value.map(String::from)),
    }
}

fn pair(name: &str, value: &str) -> (String, String) {
    (name.to_string(), value.to_string())
}

#[test]
fn check_build_form_url() {
    // <form action="/form">
    //   <select name="a"><option value="1" selected>1</option><option value="2">2</option></select>
    //   <select name="b"><option value="3" selected>3</option><option value="4">4</option></select>
    //   <select name="c"><option value>1</option></select>
    // </form>
    let form = FormElement {
        tag: "form".to_string(),
        action: Some("/form".to_string()),
        selects: vec![
            select(Some("a"), Some(Some("1"))),
            select(Some("b"), Some(Some("3"))),
            select(Some("c"), None),
        ],
    };
    let base_url = "http://server.com/".to_string();
    let form = Form::new(base_url, form);

    let url = form.action();
    assert_eq!(Some("http://server.com/form?a=1&b=3".to_string()), url)
}

#[test]
fn check_url_set_query_param() {
    let url = "http://server.com?a=1";

    assert_eq!(
        url_set_query_param(url, "b", "2"),
        Some("http://server.com/?b=2&a=1".to_string())
    );
    assert_eq!(url_set_query_param(url, "a", "2"), Some("http://server.com/?a=2".to_string()));
}

#[test]
fn query_param_on_what_is_no_url() {
    assert_eq!(url_set_query_param("server.com?a=1", "b", "2"), None);
}

#[test]
fn query_param_replaces_every_occurrence_and_escapes() {
    assert_eq!(
        url_set_query_param("http://s.com/p?a=1&b=2&a=3&c=x%20y#frag", "a", "4 5"),
        Some("http://s.com/p?a=4+5&b=2&c=x+y#frag".to_string())
    );
    assert_eq!(url_set_query_param("http://s.com/p", "a", "1"), Some("http://s.com/p?a=1".to_string()));
}

#[test]
fn query_is_put_together_with_the_parameter_first() {
    assert_eq!(
        set_query_param(vec![pair("a", "1"), pair("b", "2"), pair("a", "3")], "a", "9"),
        vec![pair("a", "9"), pair("b", "2")]
    );
    assert_eq!(set_query_param(Vec::new(), "a", "9"), vec![pair("a", "9")]);
    assert_eq!(
        set_query_param(vec![pair("A", "1")], "a", "9"),
        vec![pair("a", "9"), pair("A", "1")]
    );
}

#[test]
fn action_of_what_is_no_form() {
    let element = FormElement { tag: "div".to_string(), action: Some("/x".to_string()), selects: vec![] };
    assert_eq!(Form::new("http://server.com/".to_string(), element).action(), None);
    let element = FormElement { tag: "FoRm".to_string(), action: Some("/x".to_string()), selects: vec![] };
    assert_eq!(
        Form::new("http://server.com/".to_string(), element).action(),
        Some("http://server.com/x".to_string())
    );
}

#[test]
fn action_without_attribute_is_the_page_itself() {
    let element = FormElement { tag: "form".to_string(), action: None, selects: vec![] };
    assert_eq!(
        Form::new("http://server.com/dir/page?q=1".to_string(), element).action(),
        Some("http://server.com/dir/page?q=1".to_string())
    );
    let element = FormElement { tag: "form".to_string(), action: None, selects: vec![] };
    assert_eq!(Form::new("no url".to_string(), element).action(), None);
}

#[test]
fn selects_without_name_or_value_add_nothing() {
    let element = FormElement {
        tag: "form".to_string(),
        action: Some("search?x=0".to_string()),
        selects: vec![
            select(None, Some(Some("1"))),
            select(Some(""), Some(Some("2"))),
            select(Some("c"), Some(None)),
            select(Some("d"), Some(Some(""))),
            select(Some("e"), Some(Some("5 6"))),
        ],
    };
    assert_eq!(
        Form::new("http://server.com/dir/".to_string(), element).action(),
        Some("http://server.com/dir/search?x=0&e=5+6".to_string())
    );
}

#[test]
fn words_for_yes_and_no() {
    assert_eq!(label(true, "yes", "no"), "yes");
    assert_eq!(label(false, "yes", "no"), "no");
}
