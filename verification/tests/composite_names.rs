use inheritance_tree::composite::extract_composite_class_name;

fn name(s: &str) -> Option<String> {
    extract_composite_class_name(s)
}

#[test]
fn token_text_with_spaces() {
    assert_eq!(
        name("< A < T > as MixinWith < M1 > > :: Instance < T , V >"),
        Some("A_M1".to_string())
    );
}

#[test]
fn tight_marker() {
    assert_eq!(name("<A as MixinWith<M1>>::Instance"), Some("A_M1".to_string()));
}

#[test]
fn nested_instances_list_every_mixin() {
    assert_eq!(
        name("<<A as MixinWith<M1>>::Instance as MixinWith<M2>>::Instance"),
        Some("A_M1_M2".to_string())
    );
}

#[test]
fn nothing_found() {
    assert_eq!(name("NoAngles"), None);
    assert_eq!(name(""), None);
}

#[test]
fn only_the_first_class() {
    assert_eq!(name("Foo<Bar>"), Some("Bar".to_string()));
}

#[test]
fn marker_without_name() {
    assert_eq!(name("MixinWith<"), None);
    assert_eq!(name("MixinWith<,>"), None);
}

#[test]
fn spaced_marker_and_first_class_agree() {
    assert_eq!(name("MixinWith <  Named>"), Some("Named_Named".to_string()));
}

#[test]
fn non_ascii_mixin_name() {
    assert_eq!(name("MixinWith < \u{dc}n\u{ef}code >"), Some("\u{dc}n\u{ef}code".to_string()));
}

#[test]
fn whitespace_after_angle() {
    assert_eq!(name("<\tA as MixinWith<M>>"), Some("A_M".to_string()));
    assert_eq!(name("MixinWith<\u{3000}M\u{3000}>"), Some("M_M".to_string()));
}

#[test]
fn comma_ends_a_mixin_name() {
    assert_eq!(name("<A as MixinWith<M1, M2>>"), Some("A_M1".to_string()));
}

#[test]
fn unterminated_mixin_name() {
    assert_eq!(name("MixinWith<M1"), Some("M1".to_string()));
}

#[test]
fn spaced_nested_instances_list_every_mixin() {
    assert_eq!(
        name("< < A as MixinWith < M1 > > :: Instance as MixinWith < M2 > > :: Instance"),
        Some("A_M1_M2".to_string())
    );
}
