use emit::message_templates::build_template;

#[test]
fn templates_without_parameters_are_built() {
    let names: Vec<&str> = vec![];
    let s = "Hello, world!";

    let built = build_template(s, &names);

    assert_eq!(built, s);
}

#[test]
fn templates_with_parameters_are_built() {
    let names = vec!["A", "B"];
    let s = "C {} D {} E";

    let built = build_template(s, &names);

    assert_eq!(built, "C {A} D {B} E");
}

#[test]
fn additional_names_are_ignored() {
    let names = vec!["A", "B"];
    let s = "C {} D";

    let built = build_template(s, &names);

    assert_eq!(built, "C {A} D");
}

#[test]
fn additional_holes_are_indexed() {
    let names = vec!["A"];
    let s = "C {} D {} E";

    let built = build_template(s, &names);

    assert_eq!(built, "C {A} D {1} E");
}

#[test]
fn leading_holes_are_handled() {
    let names = vec!["A"];
    let s = "{} D";

    let built = build_template(s, &names);

    assert_eq!(built, "{A} D");
}

#[test]
fn trailing_holes_are_handled() {
    let names = vec!["A"];
    let s = "C {}";

    let built = build_template(s, &names);

    assert_eq!(built, "C {A}");
}

#[test]
fn many_unnamed_holes_are_numbered_in_decimal() {
    let names: Vec<&str> = vec![];
    let s = "{}{}{}{}{}{}{}{}{}{}{}{}";

    let built = build_template(s, &names);

    assert_eq!(built, "{0}{1}{2}{3}{4}{5}{6}{7}{8}{9}{10}{11}");
}

#[test]
fn stray_braces_are_kept() {
    let names = vec!["A", "B"];

    assert_eq!(build_template("{{}", &names), "{{A}");
    assert_eq!(build_template("{}}", &names), "{A}}");
    assert_eq!(build_template("{ }", &names), "{ }");
    assert_eq!(build_template("{", &names), "{");
    assert_eq!(build_template("", &names), "");
}

#[test]
fn non_ascii_text_is_kept() {
    let names = vec!["ℹ"];

    assert_eq!(build_template("é {} ü", &names), "é {ℹ} ü");
}
