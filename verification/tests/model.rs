use noogle::model::{ContentSource, Document, DocumentFrontmatter};

fn doc(content: Option<ContentSource>) -> Document {
    Document {
        meta: DocumentFrontmatter {
            title: "lib.id".to_string(),
            path: vec!["lib".to_string(), "id".to_string()],
            aliases: None,
            signature: None,
            is_primop: None,
            primop_meta: None,
            is_functor: None,
            attr_position: None,
            attr_expr: None,
            lambda_position: None,
            lambda_expr: None,
            count_applied: None,
            content_meta: None,
        },
        content,
    }
}

#[test]
fn title_and_content_accessors() {
    let d = doc(None);
    assert_eq!(d.title(), "lib.id");
    assert_eq!(d.content(), None);
    let d = doc(Some(ContentSource { content: None, source: None }));
    assert_eq!(d.content(), None);
    let d = doc(Some(ContentSource { content: Some("text".to_string()), source: None }));
    assert_eq!(d.content(), Some(&"text".to_string()));
}
