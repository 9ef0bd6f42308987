use rowtext::brackets::BracketSpec;
use rowtext::column::apply_to_column;
use rowtext::column::apply_value;
use rowtext::column::Transform;
use rowtext::mapping::Dict;

fn all_transforms() -> Vec<Transform> {
    let entries = vec![("a".to_string(), "x".to_string())];
    vec![
        Transform::UniqueWords,
        Transform::MapWords(Dict::new(&entries).unwrap()),
        Transform::Normalize("NFC".to_string()),
        Transform::RemoveDiacritics,
        Transform::RemoveBracketed(BracketSpec::new("()").unwrap()),
    ]
}

#[test]
fn null_rows_propagate_for_every_transform() {
    let column = vec![Some("a b a".to_string()), None, Some(String::new()), None];
    for t in all_transforms() {
        let out = apply_to_column(&t, &column);
        assert_eq!(out.len(), column.len());
        for (inp, res) in column.iter().zip(out.iter()) {
            assert_eq!(inp.is_none(), res.is_none());
        }
    }
}

#[test]
fn column_length_matches_input_length() {
    for n in [0usize, 1, 3, 7] {
        let column: Vec<Option<String>> = (0..n)
            .map(|i| {
                if i % 2 == 0 {
                    Some(format!("v{} v{}", i, i))
                } else {
                    None
                }
            })
            .collect();
        for t in all_transforms() {
            assert_eq!(apply_to_column(&t, &column).len(), n);
        }
    }
}

#[test]
fn rows_are_transformed_positionally() {
    let column = vec![
        Some("a b a c b".to_string()),
        None,
        Some("b b".to_string()),
    ];
    let out = apply_to_column(&Transform::UniqueWords, &column);
    assert_eq!(out[0].as_deref(), Some("a b c"));
    assert_eq!(out[1], None);
    assert_eq!(out[2].as_deref(), Some("b"));
}

#[test]
fn reused_buffer_leaks_nothing_between_rows() {
    let column = vec![Some("aaa bbb".to_string()), Some("c".to_string())];
    let out = apply_to_column(&Transform::UniqueWords, &column);
    assert_eq!(out[0].as_deref(), Some("aaa bbb"));
    assert_eq!(out[1].as_deref(), Some("c"));
}

#[test]
fn map_words_over_column() {
    let entries = vec![("a".to_string(), "x".to_string())];
    let t = Transform::MapWords(Dict::new(&entries).unwrap());
    let column = vec![Some("a b a".to_string()), None];
    let out = apply_to_column(&t, &column);
    assert_eq!(out[0].as_deref(), Some("x b x"));
    assert_eq!(out[1], None);
}

#[test]
fn apply_value_dispatches_each_transform() {
    let cases: Vec<(Transform, &str, &str)> = vec![
        (Transform::UniqueWords, "a a b", "a b"),
        (Transform::Normalize("NFD".to_string()), "\u{e9}", "e\u{301}"),
        (Transform::RemoveDiacritics, "caf\u{e9}", "cafe"),
        (
            Transform::RemoveBracketed(BracketSpec::new("[]").unwrap()),
            "a[b]c",
            "ac",
        ),
    ];
    for (t, input, expected) in cases {
        let mut out = String::new();
        apply_value(&t, input, &mut out);
        assert_eq!(out, expected);
    }
}
