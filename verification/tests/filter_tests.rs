use askar_store::error::ErrorKind;
use askar_store::filter::{like_matches, matches_tags, TagFilter};
use askar_store::types::EntryTag;

fn tags() -> Vec<EntryTag> {
    vec![
        EntryTag::Plaintext("plain".to_string(), "yes".to_string()),
        EntryTag::Encrypted("enc".to_string(), "42".to_string()),
    ]
}

#[test]
fn eq_on_plaintext_and_encrypted() {
    let t = tags();
    assert!(matches_tags(
        &TagFilter::Eq("~plain".to_string(), "yes".to_string()),
        &t
    ));
    assert!(!matches_tags(
        &TagFilter::Eq("~plain".to_string(), "no".to_string()),
        &t
    ));
    assert!(matches_tags(
        &TagFilter::Eq("enc".to_string(), "42".to_string()),
        &t
    ));
    // an encrypted name does not address a plaintext tag
    assert!(!matches_tags(
        &TagFilter::Eq("plain".to_string(), "yes".to_string()),
        &t
    ));
}

#[test]
fn ordering_comparisons() {
    let t = tags();
    assert!(matches_tags(
        &TagFilter::Gt("~plain".to_string(), "x".to_string()),
        &t
    ));
    assert!(!matches_tags(
        &TagFilter::Gt("~plain".to_string(), "yes".to_string()),
        &t
    ));
    assert!(matches_tags(
        &TagFilter::Gte("~plain".to_string(), "yes".to_string()),
        &t
    ));
    assert!(matches_tags(
        &TagFilter::Lt("~plain".to_string(), "z".to_string()),
        &t
    ));
    assert!(matches_tags(
        &TagFilter::Lte("~plain".to_string(), "yes".to_string()),
        &t
    ));
}

#[test]
fn boolean_connectives() {
    let t = tags();
    let eq_yes = TagFilter::Eq("~plain".to_string(), "yes".to_string());
    let eq_43 = TagFilter::Eq("enc".to_string(), "43".to_string());
    assert!(matches_tags(
        &TagFilter::And(vec![
            TagFilter::Eq("~plain".to_string(), "yes".to_string()),
            TagFilter::Eq("enc".to_string(), "42".to_string()),
        ]),
        &t
    ));
    assert!(!matches_tags(&TagFilter::And(vec![eq_yes, eq_43]), &t));
    assert!(matches_tags(
        &TagFilter::Or(vec![
            TagFilter::Eq("enc".to_string(), "43".to_string()),
            TagFilter::Eq("enc".to_string(), "42".to_string()),
        ]),
        &t
    ));
    assert!(matches_tags(
        &TagFilter::Not(Box::new(TagFilter::Eq(
            "enc".to_string(),
            "43".to_string()
        ))),
        &t
    ));
    // empty conjunction holds; empty disjunction does not
    assert!(matches_tags(&TagFilter::And(Vec::new()), &t));
    assert!(!matches_tags(&TagFilter::Or(Vec::new()), &t));
}

#[test]
fn membership_and_existence() {
    let t = tags();
    assert!(matches_tags(
        &TagFilter::In(
            "enc".to_string(),
            vec!["41".to_string(), "42".to_string()]
        ),
        &t
    ));
    assert!(!matches_tags(
        &TagFilter::In("enc".to_string(), vec!["41".to_string()]),
        &t
    ));
    assert!(matches_tags(
        &TagFilter::Exist(vec!["~plain".to_string(), "enc".to_string()]),
        &t
    ));
    assert!(!matches_tags(
        &TagFilter::Exist(vec!["~plain".to_string(), "gone".to_string()]),
        &t
    ));
}

#[test]
fn like_patterns() {
    assert!(like_matches("hello", "hello"));
    assert!(like_matches("h%o", "hello"));
    assert!(like_matches("%ll%", "hello"));
    assert!(like_matches("h_llo", "hello"));
    assert!(!like_matches("h_o", "hello"));
    assert!(like_matches("%", ""));
    assert!(!like_matches("_", ""));
    let t = tags();
    assert!(matches_tags(
        &TagFilter::Like("~plain".to_string(), "y%".to_string()),
        &t
    ));
}

#[test]
fn parse_simple_equality() {
    let t = tags();
    let f = TagFilter::from_str("{\"~plain\":\"yes\"}").unwrap();
    assert!(matches_tags(&f, &t));
    let g = TagFilter::from_str("{\"enc\":\"43\"}").unwrap();
    assert!(!matches_tags(&g, &t));
}

#[test]
fn parse_operators() {
    let t = tags();
    let f = TagFilter::from_str(
        "{\"$or\":[{\"enc\":{\"$in\":[\"41\",\"42\"]}},{\"~plain\":{\"$gt\":\"zz\"}}]}",
    )
    .unwrap();
    assert!(matches_tags(&f, &t));
    let g = TagFilter::from_str("{\"$not\":{\"~plain\":{\"$like\":\"y%\"}}}").unwrap();
    assert!(!matches_tags(&g, &t));
    let h = TagFilter::from_str("{\"$exist\":[\"enc\"]}").unwrap();
    assert!(matches_tags(&h, &t));
    let nin = TagFilter::from_str("{\"enc\":{\"$nin\":[\"42\"]}}").unwrap();
    assert!(!matches_tags(&nin, &t));
    let multi = TagFilter::from_str("{\"~plain\":{\"$gte\":\"yes\",\"$lte\":\"yes\"}}").unwrap();
    assert!(matches_tags(&multi, &t));
}

#[test]
fn parse_rejections() {
    // ordering comparison on an encrypted tag name
    let e = TagFilter::from_str("{\"enc\":{\"$gt\":\"1\"}}").unwrap_err();
    assert!(e.kind() == ErrorKind::Input);
    // empty $in list
    assert!(TagFilter::from_str("{\"enc\":{\"$in\":[]}}").is_err());
    // values must be strings
    assert!(TagFilter::from_str("{\"enc\":1}").is_err());
    assert!(TagFilter::from_str("{\"enc\":true}").is_err());
    // unknown operators and malformed documents
    assert!(TagFilter::from_str("{\"enc\":{\"$regex\":\"x\"}}").is_err());
    assert!(TagFilter::from_str("[\"enc\"]").is_err());
    assert!(TagFilter::from_str("not json").is_err());
    assert!(TagFilter::from_str("{\"enc\":\"1\"} trailing").is_err());
}
