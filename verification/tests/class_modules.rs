use inheritance_tree::classify::{
    extract_class_type_from_vtable, extract_implements, extract_interface_from_has_impl,
    extract_super_class, extract_type_name, extract_type_name_from_type, is_has_impl_trait,
};
use inheritance_tree::extract::{
    extract_classes_from_module, extract_composite_classes_from_mixin_module,
    extract_mixin_host_classes, extract_modules, extract_use_info, find_classes_module,
};
use inheritance_tree::info::ClassType;
use inheritance_tree::source::{
    ImplNode, ModuleNode, PathNode, SegmentNode, SourceItem, StaticNode, TypeAliasNode, TypeNode,
    TypePathNode, UseNode,
};

fn s(x: &str) -> String {
    x.to_string()
}

fn module(name: &str, items: Vec<SourceItem>) -> ModuleNode {
    ModuleNode { name: s(name), content: Some(items) }
}

fn item(m: ModuleNode) -> SourceItem {
    SourceItem::Module(m)
}

fn type_static(tokens: &str) -> SourceItem {
    SourceItem::Static(StaticNode { name: s("TYPE"), tokens: s(tokens) })
}

fn vtable(tokens: &str) -> SourceItem {
    item(module("vtable", vec![type_static(tokens)]))
}

fn super_alias(tokens: Option<&str>) -> SourceItem {
    SourceItem::TypeAlias(TypeAliasNode { name: s("Super"), path_tokens: tokens.map(s) })
}

fn has_impl(arg: Option<TypeNode>) -> SourceItem {
    trait_impl("HasImpl", arg)
}

fn trait_impl(name: &str, arg: Option<TypeNode>) -> SourceItem {
    SourceItem::Impl(ImplNode {
        trait_path: Some(PathNode {
            last_segment: Some(SegmentNode { ident: s(name), first_type_arg: arg }),
        }),
    })
}

fn path_type(name: &str) -> Option<TypeNode> {
    Some(TypeNode::Path(TypePathNode { last_ident: Some(s(name)) }))
}

fn use_name(n: &str) -> UseNode {
    UseNode::Name(s(n))
}

fn use_path(seg: &str, rest: UseNode) -> UseNode {
    UseNode::Path { segment: s(seg), rest: Box::new(rest) }
}

const MIXIN: &str = "static TYPE : TypeInfo = TypeInfo :: new_mixin () ;";
const INSTANCE: &str = "static TYPE : TypeInfo = TypeInfo :: new_mixin_instance () ;";
const CONCRETE: &str = "static TYPE : TypeInfo = TypeInfo :: new_concrete_class () ;";

#[test]
fn class_type_from_the_vtable() {
    assert_eq!(extract_class_type_from_vtable(&module("_M", vec![vtable(MIXIN)])).0, ClassType::Mixin);
    assert_eq!(
        extract_class_type_from_vtable(&module("_C", vec![vtable(INSTANCE)])).0,
        ClassType::Composite
    );
    assert_eq!(
        extract_class_type_from_vtable(&module("_N", vec![vtable(CONCRETE)])).0,
        ClassType::Normal
    );
    assert!(extract_class_type_from_vtable(&module("_M", vec![vtable(MIXIN)])).1.is_none());
}

#[test]
fn class_type_defaults_to_normal() {
    let no_content = ModuleNode { name: s("_X"), content: None };
    assert_eq!(extract_class_type_from_vtable(&no_content).0, ClassType::Normal);
    let other_static = module(
        "_X",
        vec![item(module("vtable", vec![SourceItem::Static(StaticNode { name: s("OTHER"), tokens: s(MIXIN) })]))],
    );
    assert_eq!(extract_class_type_from_vtable(&other_static).0, ClassType::Normal);
    let not_vtable = module("_X", vec![item(module("table", vec![type_static(MIXIN)]))]);
    assert_eq!(extract_class_type_from_vtable(&not_vtable).0, ClassType::Normal);
}

#[test]
fn class_type_from_a_nested_vtable() {
    let nested = module("_X", vec![item(module("inner", vec![vtable(INSTANCE)]))]);
    assert_eq!(extract_class_type_from_vtable(&nested).0, ClassType::Composite);
    let named_vtable = module("_X", vec![item(module("my_vtable_mod", vec![type_static(MIXIN)]))]);
    assert_eq!(extract_class_type_from_vtable(&named_vtable).0, ClassType::Mixin);
}

#[test]
fn a_direct_normal_vtable_wins_over_nested_kinds() {
    let m = module("_X", vec![item(module("inner", vec![vtable(MIXIN)])), vtable(CONCRETE)]);
    assert_eq!(extract_class_type_from_vtable(&m).0, ClassType::Normal);
}

#[test]
fn superclass_variants() {
    let sup = |t: &str| extract_super_class(&module("_X", vec![super_alias(Some(t))]));
    assert_eq!(sup(":: classes :: object :: Object"), Some(s("Object")));
    assert_eq!(sup("Shape < T >"), Some(s("Shape")));
    assert_eq!(sup("Plain"), Some(s("Plain")));
    assert_eq!(sup("x:::y"), Some(s(":y")));
    assert_eq!(sup("< A as MixinWith < M > > :: Instance"), Some(s("A_M")));
    assert_eq!(sup("MixinWith::Thing"), Some(s("Thing")));
}

#[test]
fn superclass_from_the_first_path_alias() {
    let m = module("_X", vec![super_alias(None), super_alias(Some("B")), super_alias(Some("C"))]);
    assert_eq!(extract_super_class(&m), Some(s("B")));
    let other = module(
        "_X",
        vec![SourceItem::TypeAlias(TypeAliasNode { name: s("Base"), path_tokens: Some(s("B")) })],
    );
    assert_eq!(extract_super_class(&other), None);
}

#[test]
fn interface_names() {
    assert_eq!(extract_type_name(&TypePathNode { last_ident: None }), "Unknown");
    assert_eq!(extract_type_name(&TypePathNode { last_ident: Some(s("Foo")) }), "Foo");
    assert_eq!(extract_type_name_from_type(&TypeNode::Other), "Unknown");
    let p = PathNode { last_segment: Some(SegmentNode { ident: s("HasImpl"), first_type_arg: None }) };
    assert!(is_has_impl_trait(&p));
    assert_eq!(extract_interface_from_has_impl(&p), None);
    assert!(!is_has_impl_trait(&PathNode { last_segment: None }));
}

#[test]
fn implements_each_interface_once() {
    let m = module(
        "_X",
        vec![
            has_impl(path_type("B")),
            has_impl(path_type("A")),
            has_impl(path_type("B")),
            has_impl(Some(TypeNode::Other)),
            has_impl(None),
            trait_impl("Clone", path_type("C")),
            SourceItem::Impl(ImplNode { trait_path: None }),
        ],
    );
    assert_eq!(extract_implements(&m), vec![s("B"), s("A"), s("Unknown")]);
}

#[test]
fn hosts_of_a_mixin() {
    let parent = module(
        "shapes",
        vec![
            SourceItem::Use(use_path(
                "_classes",
                UseNode::Group(vec![use_name("A_M"), use_name("B_X"), use_path("_classes", use_name("Z_M"))]),
            )),
            SourceItem::Use(use_name("C_M")),
            SourceItem::Use(use_path("super", use_path("_classes", use_name("D_M")))),
            SourceItem::Use(use_path("_classes", use_path("_classes", use_name("E_M")))),
            SourceItem::Use(use_name("_M")),
            SourceItem::Use(UseNode::Other),
        ],
    );
    assert_eq!(extract_mixin_host_classes(&parent, "M"), vec![s("A"), s("C"), s("E"), s("")]);
}

#[test]
fn use_info_appends() {
    let mut hosts = vec![s("Old")];
    extract_use_info(&use_path("_classes", use_name("Box_Mixin")), "Mixin", &mut hosts);
    assert_eq!(hosts, vec![s("Old"), s("Box")]);
}

#[test]
fn classes_module_with_content() {
    let items = vec![
        item(ModuleNode { name: s("_classes"), content: None }),
        item(module("_classes", vec![SourceItem::Other])),
    ];
    let found = find_classes_module(&items).unwrap();
    assert_eq!(found.len(), 1);
    assert!(find_classes_module(&vec![SourceItem::Other]).is_none());
}

#[test]
fn instances_inside_a_mixin_module() {
    let mixin = module(
        "_Named",
        vec![
            vtable(MIXIN),
            item(module("_A_Named", vec![vtable(INSTANCE), super_alias(Some("A < T >"))])),
            item(module("_B_Named", vec![vtable(CONCRETE)])),
            item(module("_C_Other", vec![vtable(INSTANCE)])),
            item(module("_", vec![vtable(INSTANCE)])),
            item(module("__D_Named", vec![item(module("vtable", vec![type_static("TypeInfo::new_mixin_instance")]))])),
        ],
    );
    let found = extract_composite_classes_from_mixin_module(&mixin, "Named");
    assert_eq!(found.len(), 2);
    assert_eq!(found[0].name, "A_Named");
    assert_eq!(found[0].class_type, ClassType::Composite);
    assert_eq!(found[0].extends, Some(s("A")));
    assert!(found[0].with.is_empty());
    assert_eq!(found[1].name, "D_Named");
}

#[test]
fn classes_of_a_classes_module() {
    let parent = module("shapes", vec![SourceItem::Use(use_path("_classes", use_name("A_Named")))]);
    let class_items = vec![
        item(module("_Named", vec![vtable(MIXIN), item(module("_A_Named", vec![vtable(INSTANCE)]))])),
        item(module("helpers", vec![])),
        item(module("__Deep", vec![vtable(CONCRETE), super_alias(Some("A_Named_Other"))])),
    ];
    let info = extract_classes_from_module(&class_items, "app::shapes", &parent);
    assert_eq!(info.name, "app::shapes");
    assert_eq!(info.mixins.len(), 1);
    assert_eq!(info.mixins[0].name, "Named");
    assert_eq!(info.mixins[0].host_classes, vec![s("A")]);
    assert_eq!(info.classes.len(), 2);
    assert_eq!(info.classes[0].name, "A_Named");
    assert_eq!(info.classes[1].name, "Deep");
    assert_eq!(info.classes[1].with, vec![s("Named"), s("Other")]);
}

#[test]
fn module_paths_and_order() {
    let items = vec![
        item(module(
            "a",
            vec![
                item(module("_classes", vec![item(module("_X", vec![]))])),
                item(module("b", vec![item(module("_classes", vec![item(module("_Y", vec![]))]))])),
            ],
        )),
        item(module("c", vec![item(module("_classes", vec![]))])),
        item(ModuleNode { name: s("d"), content: None }),
    ];
    let modules = extract_modules(&items);
    let names: Vec<&str> = modules.iter().map(|m| m.name.as_str()).collect();
    assert_eq!(names, vec!["a", "a::b", "c"]);
    assert_eq!(modules[1].classes[0].name, "Y");
    assert!(modules[2].classes.is_empty());
}
