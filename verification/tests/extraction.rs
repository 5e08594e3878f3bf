use inheritance_tree::extract::extract_inheritance_info_by_module;
use inheritance_tree::info::{ClassType, ModuleInfo};
use inheritance_tree::report::{format_inheritance_tree, inheritance_statistics};

const SHAPES: &str = r#"
mod app {
    pub mod shapes {
        use _classes::Circle_Named;
        use _classes::{Square_Named, Other};
        use super::_classes::Hidden_Named;
        pub mod _classes {
            pub mod _Shape {
                pub type Super = ::classes::object::Object;
                pub mod vtable {
                    pub static TYPE: TypeInfo = TypeInfo::new_abstract_class();
                }
                impl HasImpl<Drawable> for Shape {}
                impl HasImpl<Drawable> for Shape {}
                impl HasImpl<crate::ifaces::Sized> for Shape {}
                impl Clone for Shape {}
            }
            pub mod _Named {
                pub mod vtable {
                    pub static TYPE: TypeInfo = TypeInfo::new_mixin();
                }
                pub mod _Circle_Named {
                    pub type Super = Circle<T, V>;
                    pub mod vtable {
                        pub static TYPE: TypeInfo = TypeInfo::new_mixin_instance();
                    }
                    impl HasImpl<Printable> for Circle_Named {}
                }
                pub mod _Other {
                    pub mod vtable {
                        pub static TYPE: TypeInfo = TypeInfo::new_mixin_instance();
                    }
                }
            }
            pub mod _Circle {
                pub type Super = Shape<T>;
                pub mod vtable {
                    pub static TYPE: TypeInfo = TypeInfo::new_concrete_class();
                }
            }
            pub mod _FancyCircle {
                pub type Super = <Circle<T> as MixinWith<Named>>::Instance<T, V>;
                pub mod vtable {
                    pub static TYPE: TypeInfo = TypeInfo::new_concrete_class();
                }
            }
            pub mod helpers {}
        }
    }
}
"#;

fn shapes() -> Vec<ModuleInfo> {
    extract_inheritance_info_by_module(SHAPES).expect("parses")
}

#[test]
fn module_with_classes_is_reported_under_its_path() {
    let modules = shapes();
    assert_eq!(modules.len(), 1);
    assert_eq!(modules[0].name, "app::shapes");
}

#[test]
fn mixin_and_its_hosts() {
    let modules = shapes();
    assert_eq!(modules[0].mixins.len(), 1);
    assert_eq!(modules[0].mixins[0].name, "Named");
    assert_eq!(modules[0].mixins[0].host_classes, vec!["Circle".to_string(), "Square".to_string()]);
}

#[test]
fn classes_in_order_with_instances_in_place_of_the_mixin() {
    let modules = shapes();
    let names: Vec<&str> = modules[0].classes.iter().map(|c| c.name.as_str()).collect();
    assert_eq!(names, vec!["Shape", "Circle_Named", "Circle", "FancyCircle"]);
    assert_eq!(modules[0].classes[0].class_type, ClassType::Normal);
    assert_eq!(modules[0].classes[1].class_type, ClassType::Composite);
    assert_eq!(modules[0].classes[2].class_type, ClassType::Normal);
}

#[test]
fn superclass_forms() {
    let modules = shapes();
    let c = &modules[0].classes;
    assert_eq!(c[0].extends.as_deref(), Some("Object"));
    assert_eq!(c[1].extends.as_deref(), Some("Circle"));
    assert_eq!(c[2].extends.as_deref(), Some("Shape"));
    assert_eq!(c[3].extends.as_deref(), Some("Circle_Named"));
}

#[test]
fn with_lists_the_mixins_of_a_composite_parent() {
    let modules = shapes();
    let c = &modules[0].classes;
    assert!(c[0].with.is_empty());
    assert!(c[1].with.is_empty());
    assert_eq!(c[3].with, vec!["Named".to_string()]);
}

#[test]
fn implements_once_each_in_order() {
    let modules = shapes();
    let c = &modules[0].classes;
    assert_eq!(c[0].implements, vec!["Drawable".to_string(), "Sized".to_string()]);
    assert_eq!(c[1].implements, vec!["Printable".to_string()]);
    assert!(c[2].implements.is_empty());
}

#[test]
fn report_text() {
    let modules = shapes();
    let text = format_inheritance_tree(&modules);
    let expected = "=== Module: app::shapes ===\n\n\
Mixin: Named\n  HostClasses: [Circle, Square]\n\n\
Mixin Instance: Circle_Named\n  Extends: Circle\n  Implements: [Printable]\n\n\
Class: Shape\n  Extends: Object\n  Implements: [Drawable, Sized]\n  With: []\n\n\
Class: Circle\n  Extends: Shape\n  Implements: []\n  With: []\n\n\
Class: FancyCircle\n  Extends: Circle_Named\n  Implements: []\n  With: [Named]\n\n\n";
    assert_eq!(text, expected);
}

#[test]
fn statistics() {
    let modules = shapes();
    let s = inheritance_statistics(&modules).unwrap();
    assert_eq!(s.total_modules, 1);
    assert_eq!(s.total_classes, 4);
    assert_eq!(s.total_mixins, 1);
}

#[test]
fn unparsable_text_gives_none() {
    assert!(extract_inheritance_info_by_module("mod a { fn }").is_none());
}

#[test]
fn empty_file_gives_no_modules() {
    let modules = extract_inheritance_info_by_module("").unwrap();
    assert!(modules.is_empty());
    assert_eq!(format_inheritance_tree(&modules), "");
}

#[test]
fn nested_module_path_with_one_class() {
    let modules = extract_inheritance_info_by_module(
        "mod a { mod b { mod _classes { mod _A { type Super = ::classes::object::Object; } } } }",
    )
    .unwrap();
    assert_eq!(modules.len(), 1);
    assert_eq!(modules[0].name, "a::b");
    assert!(modules[0].mixins.is_empty());
    assert_eq!(modules[0].classes.len(), 1);
    let c = &modules[0].classes[0];
    assert_eq!(c.name, "A");
    assert_eq!(c.class_type, ClassType::Normal);
    assert_eq!(c.extends, Some("Object".to_string()));
    assert!(c.implements.is_empty());
    assert!(c.with.is_empty());
}

#[test]
fn parent_module_comes_before_nested_module() {
    let modules =
        extract_inheritance_info_by_module("mod a { mod _classes {} mod b { mod _classes {} } }")
            .unwrap();
    assert_eq!(modules.len(), 2);
    assert_eq!(modules[0].name, "a");
    assert_eq!(modules[1].name, "a::b");
    assert!(modules.iter().all(|m| m.classes.is_empty() && m.mixins.is_empty()));
}

#[test]
fn unclosed_module_gives_none() {
    assert!(extract_inheritance_info_by_module("mod a {").is_none());
}
