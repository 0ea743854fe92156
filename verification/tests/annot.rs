use wisp::annot::{clean_text, parse_docs, split_top_level, AnnotError, Docs};
use wisp::number::Number;

fn docs(lines: &[&str]) -> Docs {
    let raw: Vec<String> = lines.iter().map(|s| s.to_string()).collect();
    parse_docs(&raw).unwrap()
}

/// The value a number literal denotes, as `f64::from_str` reads it.
fn num(n: Option<Number>) -> Option<f64> {
    n.map(|n| n.literal().parse::<f64>().unwrap())
}

fn nums(v: Option<Vec<Number>>) -> Option<Vec<f64>> {
    v.map(|v| v.into_iter().map(|n| n.literal().parse::<f64>().unwrap()).collect())
}

#[test]
fn description_only() {
    let d = docs(&["/// Overall strength", "///   of the effect.  "]);
    assert_eq!(d.description, "Overall strength of the effect.");
    assert!(d.annotations.is_empty());
}

#[test]
fn numbers_and_flags() {
    let d = docs(&["/// @min(0.0) @max(1.0) @default(0.5) @color"]);
    assert_eq!(num(d.get("min").unwrap().single_number()), Some(0.0));
    assert_eq!(num(d.get("max").unwrap().single_number()), Some(1.0));
    assert_eq!(num(d.get("default").unwrap().single_number()), Some(0.5));
    assert!(d.get("color").unwrap().args.is_empty());
}

#[test]
fn negative_and_multi_numbers() {
    let d = docs(&["/// @default(-1.0, 0.25, 2, 1e3)"]);
    let nums = nums(d.get("default").unwrap().pos_numbers()).unwrap();
    assert_eq!(nums, vec![-1.0, 0.25, 2.0, 1000.0]);
}

#[test]
fn named_args_flags_and_strings() {
    let d = docs(&[r#"/// @pass(target = "buffer_a", persistent, float, width = "$WIDTH/2")"#]);
    let pass = d.get("pass").unwrap();
    assert_eq!(pass.named("target").unwrap().as_str(), Some("buffer_a"));
    assert!(pass.flag("persistent"));
    assert!(pass.flag("float"));
    assert!(!pass.flag("nope"));
    assert_eq!(pass.named("width").unwrap().as_str(), Some("$WIDTH/2"));
}

#[test]
fn description_interleaved_with_annotations() {
    let d = docs(&[
        "/// Feedback amount. @min(0.0)",
        "/// Try cranking it. @max(2.0)",
    ]);
    assert_eq!(d.description, "Feedback amount. Try cranking it.");
    assert_eq!(d.annotations.len(), 2);
}

#[test]
fn email_like_text_is_not_an_annotation() {
    let d = docs(&["/// Contact mail@example.com for details"]);
    assert!(d.annotations.is_empty());
    assert_eq!(d.description, "Contact mail@example.com for details");
}

#[test]
fn string_with_comma_and_parens() {
    let d = docs(&[r#"/// @labels("low, slow", "high (fast)")"#]);
    let labels = d.get("labels").unwrap().pos_strings().unwrap();
    assert_eq!(labels, vec!["low, slow", "high (fast)"]);
}

#[test]
fn block_doc_comment() {
    let d = docs(&["/** Speed of the thing.\n * @min(0.0)\n */"]);
    assert_eq!(d.description, "Speed of the thing.");
    assert_eq!(num(d.get("min").unwrap().single_number()), Some(0.0));
}

#[test]
fn unterminated_args() {
    let raw = vec!["/// @pass(target = \"a\"".to_string()];
    assert_eq!(
        parse_docs(&raw),
        Err(AnnotError::UnterminatedArgs {
            annotation: "pass".into()
        })
    );
}

#[test]
fn unterminated_string() {
    let raw = vec!["/// @label(\"oops)".to_string()];
    assert_eq!(
        parse_docs(&raw),
        Err(AnnotError::UnterminatedString {
            annotation: "label".into()
        })
    );
}

#[test]
fn bad_arg() {
    let raw = vec!["/// @min(0.0.0)".to_string()];
    assert!(matches!(parse_docs(&raw), Err(AnnotError::BadArg { .. })));
}

#[test]
fn split_pieces_rejoin_to_the_text() {
    let text: Vec<char> = "a, f(b, c), \"d, e\", g".chars().collect();
    let pieces = split_top_level(&text, ',');
    let strings: Vec<String> = pieces.iter().map(|p| p.iter().collect()).collect();
    assert_eq!(strings, vec!["a", " f(b, c)", " \"d, e\"", " g"]);
    assert_eq!(strings.join(","), "a, f(b, c), \"d, e\", g");
    assert_eq!(split_top_level(&[], ',').len(), 1);
}

#[test]
fn text_without_annotations_is_its_cleaned_text() {
    let raw = vec!["/// A soft   glow,".to_string(), "/// no markers here.".to_string()];
    let parsed = parse_docs(&raw).unwrap();
    assert!(parsed.annotations.is_empty());
    assert_eq!(parsed.description, clean_text(&raw));
    assert_eq!(parsed.description, "A soft glow, no markers here.");
}

#[test]
fn split_counts_separators_at_depth_zero_only() {
    let text: Vec<char> = "a),b,(c,d".chars().collect();
    let pieces = split_top_level(&text, ',');
    let strings: Vec<String> = pieces.iter().map(|p| p.iter().collect()).collect();
    assert_eq!(strings, vec!["a)", "b", "(c,d"]);
}
