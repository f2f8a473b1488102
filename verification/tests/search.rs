use noogle::model::{ContentSource, DocItem, Document, DocumentFrontmatter, PrimopMatter};
use noogle::search::{rank_results, search};
use serde_json::{from_str, Value};
use fuzzy_matcher::skim::SkimMatcherV2;
use fuzzy_matcher::FuzzyMatcher;

fn create_mock_doc(name: &str) -> DocItem {
    DocItem {
        meta: DocumentFrontmatter {
            title: name.to_string(),
            path: name.split('.').map(|s| s.to_string()).collect(),
            aliases: None,
            signature: None,
            is_primop: None,
            primop_meta: None,
            is_functor: None,
            attr_position: None,
            attr_expr: None,
            lambda_position: None,
            lambda_expr: None,
            count_applied: None,
            content_meta: None,
        },
        content: None,
    }
}

fn opt_string(v: &Value) -> Option<String> {
    v.as_str().map(|s| s.to_string())
}

/// Builds a document from its JSON form, field by field.
fn document_from_json(v: &Value) -> Document {
    let meta = &v["meta"];
    let primop_meta = if meta["primop_meta"].is_null() {
        None
    } else {
        let p = &meta["primop_meta"];
        Some(PrimopMatter {
            name: opt_string(&p["name"]),
            args: p["args"].as_array().map(|a| a.iter().filter_map(opt_string_ref).collect()),
            experimental: p["experimental"].as_bool(),
            arity: p["arity"].as_u64().map(|n| n as usize),
        })
    };
    let content = if v["content"].is_null() {
        None
    } else {
        Some(ContentSource { content: opt_string(&v["content"]["content"]), source: None })
    };
    Document {
        meta: DocumentFrontmatter {
            title: meta["title"].as_str().unwrap().to_string(),
            path: meta["path"].as_array().unwrap().iter().filter_map(opt_string_ref).collect(),
            aliases: None,
            signature: opt_string(&meta["signature"]),
            is_primop: meta["is_primop"].as_bool(),
            primop_meta,
            is_functor: meta["is_functor"].as_bool(),
            attr_position: None,
            attr_expr: opt_string(&meta["attr_expr"]),
            lambda_position: None,
            lambda_expr: opt_string(&meta["lambda_expr"]),
            count_applied: meta["count_applied"].as_u64().map(|n| n as usize),
            content_meta: None,
        },
        content,
    }
}

fn opt_string_ref(v: &Value) -> Option<String> {
    opt_string(v)
}

#[test]
fn test_search_match() {
    let doc1 = create_mock_doc("builtins.map");
    let doc2 = create_mock_doc("lib.lists.map");
    let doc3 = create_mock_doc("builtins.toString");

    let data = vec![doc1.clone(), doc2.clone(), doc3.clone()];

    let results = search("map", &data);

    assert!(results.len() >= 2);
    assert!(results.iter().any(|r| r.doc.title() == "builtins.map"));
    assert!(results.iter().any(|r| r.doc.title() == "lib.lists.map"));
}

#[test]
fn test_search_fuzzy() {
    let doc = create_mock_doc("builtins.readFile");
    let data = vec![doc];

    let results = search("readfile", &data);
    assert!(!results.is_empty());

    let results = search("b.rf", &data);
    assert!(!results.is_empty());
}

#[test]
fn test_deserialization() {
    let json_data = r#"
    {
        "meta": {
            "title": "builtins.map",
            "path": ["builtins", "map"],
            "aliases": null,
            "signature": null,
            "is_primop": true,
            "primop_meta": {
                "name": "map",
                "args": ["f", "list"],
                "experimental": false,
                "arity": 2
            },
            "is_functor": null,
            "attr_position": null,
            "attr_expr": null,
            "lambda_position": null,
            "lambda_expr": null,
            "count_applied": null,
            "content_meta": null
        },
        "content": {
            "content": "Apply function f to each element of list.",
            "source": null
        }
    }
    "#;

    let value: Value = from_str(json_data).expect("Failed to deserialize Document");
    let doc = document_from_json(&value);
    assert_eq!(doc.title(), "builtins.map");
    assert_eq!(doc.content(), Some(&"Apply function f to each element of list.".to_string()));
    assert_eq!(doc.meta.is_primop, Some(true));
    assert_eq!(doc.meta.primop_meta.unwrap().arity, Some(2));
}

#[test]
fn search_orders_best_first_and_keeps_ties_in_order() {
    let data = vec![
        create_mock_doc("lib.strings.concatMap"),
        create_mock_doc("map"),
        create_mock_doc("builtins.toString"),
        create_mock_doc("map"),
        create_mock_doc("lib.lists.map"),
    ];
    let results = search("map", &data);
    assert!(results.iter().all(|r| r.doc.title() != "builtins.toString"));
    assert_eq!(results.len(), 4);
    for w in results.windows(2) {
        assert!(w[0].score >= w[1].score);
    }
    // the two equal titles score alike and keep their order
    let positions: Vec<usize> = results
        .iter()
        .enumerate()
        .filter(|(_, r)| r.doc.title() == "map")
        .map(|(k, _)| k)
        .collect();
    assert_eq!(positions.len(), 2);
    assert!(std::ptr::eq(results[positions[0]].doc, &data[1]));
    assert!(std::ptr::eq(results[positions[1]].doc, &data[3]));
}

#[test]
fn search_with_empty_query_lists_everything_in_order() {
    let data = vec![create_mock_doc("b"), create_mock_doc("a"), create_mock_doc("c")];
    let results = search("", &data);
    let titles: Vec<&str> = results.iter().map(|r| r.doc.title()).collect();
    assert_eq!(titles, vec!["b", "a", "c"]);
    assert!(results.iter().all(|r| r.score == 0));
}

#[test]
fn search_without_match_is_empty() {
    let data = vec![create_mock_doc("builtins.map")];
    assert!(search("zzz", &data).is_empty());
    assert!(search("map", &[]).is_empty());
}

#[test]
fn search_scores_as_the_matcher_does() {
    let data = vec![create_mock_doc("builtins.readFile"), create_mock_doc("lib.readFile")];
    let results = search("rf", &data);
    let m = SkimMatcherV2::default();
    for r in &results {
        assert_eq!(Some(r.score), m.fuzzy_match(r.doc.title(), "rf"));
    }
}

#[test]
fn rank_results_orders_given_scores() {
    let data = vec![create_mock_doc("a"), create_mock_doc("b"), create_mock_doc("c"), create_mock_doc("d")];
    let scores = vec![Some(5), None, Some(9), Some(5)];
    let results = rank_results(&data, &scores);
    let got: Vec<(&str, i64)> = results.iter().map(|r| (r.doc.title(), r.score)).collect();
    assert_eq!(got, vec![("c", 9), ("a", 5), ("d", 5)]);
    let none = rank_results(&data, &[None, None, None, None]);
    assert!(none.is_empty());
    let negative = rank_results(&data, &[Some(-3), Some(-1), None, Some(-3)]);
    let got: Vec<&str> = negative.iter().map(|r| r.doc.title()).collect();
    assert_eq!(got, vec!["b", "a", "d"]);
}

#[test]
fn search_lists_titles_holding_the_query_in_order() {
    let data = vec![
        create_mock_doc("builtins.readFile"),
        create_mock_doc("lib.fileContents"),
        create_mock_doc("builtins.toFile"),
    ];
    let titles = |q: &str| -> Vec<String> {
        let mut t: Vec<String> = search(q, &data).iter().map(|r| r.doc.title().to_string()).collect();
        t.sort();
        t
    };
    assert_eq!(titles("rf"), vec!["builtins.readFile".to_string()]);
    assert_eq!(titles("FILE"), Vec::<String>::new());
    assert_eq!(titles("File"), vec!["builtins.readFile".to_string(), "builtins.toFile".to_string()]);
    assert_eq!(titles("file").len(), 3);
    assert_eq!(titles("fr"), Vec::<String>::new());
}
