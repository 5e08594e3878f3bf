use inheritance_tree::classify::extract_implements;
use inheritance_tree::extract::{extract_classes_from_module, extract_inheritance_info_by_module};
use inheritance_tree::info::{ClassInfo, ClassType, MixinInfo, ModuleInfo};
use inheritance_tree::report::{format_inheritance_tree, inheritance_statistics};
use inheritance_tree::source::{
    ImplNode, ModuleNode, PathNode, SegmentNode, SourceItem, TypeAliasNode, TypeNode, TypePathNode,
};

fn s(x: &str) -> String {
    x.to_string()
}

fn class(name: &str, t: ClassType, extends: Option<&str>, implements: &[&str], with: &[&str]) -> ClassInfo {
    ClassInfo {
        name: s(name),
        class_type: t,
        extends: extends.map(s),
        implements: implements.iter().map(|x| s(x)).collect(),
        with: with.iter().map(|x| s(x)).collect(),
    }
}

fn sample_a() -> ModuleInfo {
    ModuleInfo {
        name: s("a"),
        classes: vec![
            class("P", ClassType::Normal, None, &[], &[]),
            class("Q_M", ClassType::Composite, None, &["I", "J"], &[]),
        ],
        mixins: vec![MixinInfo { name: s("M"), host_classes: vec![] }],
    }
}

fn sample_b() -> ModuleInfo {
    ModuleInfo { name: s("a::b"), classes: vec![], mixins: vec![] }
}

#[test]
fn report_of_a_module_without_extends() {
    let text = format_inheritance_tree(&[sample_a()]);
    assert_eq!(
        text,
        "=== Module: a ===\n\nMixin: M\n  HostClasses: []\n\nMixin Instance: Q_M\n  Implements: [I, J]\n\nClass: P\n  Implements: []\n  With: []\n\n\n"
    );
}

#[test]
fn report_of_an_empty_module() {
    assert_eq!(format_inheritance_tree(&[sample_b()]), "=== Module: a::b ===\n\n\n");
}

#[test]
fn report_concatenates() {
    let both = format_inheritance_tree(&[sample_a(), sample_b()]);
    let apart = format_inheritance_tree(&[sample_a()]) + &format_inheritance_tree(&[sample_b()]);
    assert_eq!(both, apart);
}

#[test]
fn statistics_count_classes_and_mixins() {
    let st = inheritance_statistics(&[sample_a(), sample_b()]).unwrap();
    assert_eq!(st.total_modules, 2);
    assert_eq!(st.total_classes, 2);
    assert_eq!(st.total_mixins, 1);
    let mixin_class = ModuleInfo {
        name: s("m"),
        classes: vec![class("X", ClassType::Mixin, None, &[], &[])],
        mixins: vec![],
    };
    assert_eq!(inheritance_statistics(&[mixin_class]).unwrap().total_classes, 0);
}

#[test]
fn with_lists_the_mixins_of_a_composite_superclass() {
    let class_items = vec![SourceItem::Module(ModuleNode {
        name: s("_Leaf"),
        content: Some(vec![SourceItem::TypeAlias(TypeAliasNode {
            name: s("Super"),
            path_tokens: Some(s("Base_M1_M2")),
        })]),
    })];
    let parent = ModuleNode { name: s("p"), content: None };
    let info = extract_classes_from_module(&class_items, "p", &parent);
    assert_eq!(info.classes[0].extends, Some(s("Base_M1_M2")));
    assert_eq!(info.classes[0].with, vec![s("M1"), s("M2")]);
}

#[test]
fn implements_has_no_duplicates() {
    let imp = |n: &str| {
        SourceItem::Impl(ImplNode {
            trait_path: Some(PathNode {
                last_segment: Some(SegmentNode {
                    ident: s("HasImpl"),
                    first_type_arg: Some(TypeNode::Path(TypePathNode { last_ident: Some(s(n)) })),
                }),
            }),
        })
    };
    let m = ModuleNode { name: s("_X"), content: Some(vec![imp("A"), imp("A"), imp("B"), imp("A")]) };
    assert_eq!(extract_implements(&m), vec![s("A"), s("B")]);
}

#[test]
fn no_reported_class_is_a_mixin() {
    let src = "mod m { mod _classes { mod _Mx { mod vtable { static TYPE: T = TypeInfo::new_mixin(); } } mod __Plain {} } }";
    let modules = extract_inheritance_info_by_module(src).unwrap();
    assert_eq!(modules.len(), 1);
    assert_eq!(modules[0].mixins[0].name, "Mx");
    assert_eq!(modules[0].classes.len(), 1);
    assert_eq!(modules[0].classes[0].name, "Plain");
    assert!(modules[0].classes.iter().all(|c| c.class_type != ClassType::Mixin));
}

#[test]
fn module_declared_without_body() {
    let modules = extract_inheritance_info_by_module("mod outer; mod m { mod _classes; }").unwrap();
    assert!(modules.is_empty());
}
