//! What the extractor reports: the classes and mixins of each module.
use vstd::prelude::*;

verus! {

/// The kind of a class.
#[derive(Debug, Clone, Copy, PartialEq, Eq, Structural)]
pub enum ClassType {
    /// An ordinary class.
    Normal,
    /// A mixin.
    Mixin,
    /// A mixin instance: a class composed of a base class and mixins.
    Composite,
}

#[derive(Debug, Clone)]
pub struct ClassInfo {
    pub name: String,
    pub class_type: ClassType,
    pub extends: Option<String>,
    pub implements: Vec<String>,
    pub with: Vec<String>,
}

#[derive(Debug, Clone)]
pub struct MixinInfo {
    pub name: String,
    pub host_classes: Vec<String>,
}

#[derive(Debug, Clone)]
pub struct ModuleInfo {
    pub name: String,
    pub classes: Vec<ClassInfo>,
    pub mixins: Vec<MixinInfo>,
}

/// A `ClassInfo` with its strings taken as character sequences.
pub struct ClassView {
    pub name: Seq<char>,
    pub class_type: ClassType,
    pub extends: Option<Seq<char>>,
    pub implements: Seq<Seq<char>>,
    pub with: Seq<Seq<char>>,
}

pub struct MixinView {
    pub name: Seq<char>,
    pub host_classes: Seq<Seq<char>>,
}

pub struct ModuleView {
    pub name: Seq<char>,
    pub classes: Seq<ClassView>,
    pub mixins: Seq<MixinView>,
}

pub open spec fn string_views(v: Seq<String>) -> Seq<Seq<char>> {
    v.map_values(|s: String| s@)
}

pub open spec fn option_view(o: Option<String>) -> Option<Seq<char>> {
    match o {
        Some(s) => Some(s@),
        None => None,
    }
}

impl View for ClassInfo {
    type V = ClassView;

    open spec fn view(&self) -> ClassView {
        ClassView {
            name: self.name@,
            class_type: self.class_type,
            extends: option_view(self.extends),
            implements: string_views(self.implements@),
            with: string_views(self.with@),
        }
    }
}

impl View for MixinInfo {
    type V = MixinView;

    open spec fn view(&self) -> MixinView {
        MixinView { name: self.name@, host_classes: string_views(self.host_classes@) }
    }
}

pub open spec fn class_views(v: Seq<ClassInfo>) -> Seq<ClassView> {
    v.map_values(|c: ClassInfo| c@)
}

pub open spec fn mixin_views(v: Seq<MixinInfo>) -> Seq<MixinView> {
    v.map_values(|m: MixinInfo| m@)
}

impl View for ModuleInfo {
    type V = ModuleView;

    open spec fn view(&self) -> ModuleView {
        ModuleView {
            name: self.name@,
            classes: class_views(self.classes@),
            mixins: mixin_views(self.mixins@),
        }
    }
}

pub open spec fn module_views(v: Seq<ModuleInfo>) -> Seq<ModuleView> {
    v.map_values(|m: ModuleInfo| m@)
}

} // verus!
