//! Walking the modules of a source file: every module that holds a
//! `_classes` module yields a `ModuleInfo` with the classes and mixins that
//! `_classes` defines.
use vstd::prelude::*;

use crate::classify::{
    class_type_of, extract_class_type_from_vtable, extract_implements, extract_super_class,
    implements_of, is_vtable_name, super_class_of,
};
use crate::info::{
    class_views, mixin_views, module_views, option_view, string_views, ClassInfo, ClassType,
    ClassView, MixinInfo, MixinView, ModuleInfo, ModuleView,
};
use crate::source::{ModuleNode, SourceItem, UseNode};
use crate::syntax::{parse_source, syn_parses, syn_source_items};
use crate::text::{
    chars_of, concat_chars, contains, contains_str, equals_str, split, split_chars,
    strip_leading, strip_leading_chars, strip_suffix, strip_suffix_chars, string_of,
};

verus! {

// ---------------------------------------------------------------------
// Host classes of a mixin
// ---------------------------------------------------------------------

/// `[h]` when the imported name `name` is `h` followed by `_` and the
/// mixin's name; else nothing.
pub open spec fn host_of(name: Seq<char>, mixin: Seq<char>) -> Seq<Seq<char>> {
    match strip_suffix(name, "_"@ + mixin) {
        Some(h) => seq![h],
        None => Seq::empty(),
    }
}

/// The hosts named by the plain names of a `use` group.
pub open spec fn hosts_in_group(items: Seq<UseNode>, mixin: Seq<char>) -> Seq<Seq<char>>
    decreases items.len(),
{
    if items.len() == 0 {
        Seq::empty()
    } else {
        hosts_in_group(items.drop_last(), mixin) + match items.last() {
            UseNode::Name(n) => host_of(n@, mixin),
            _ => Seq::empty(),
        }
    }
}

/// The hosts named by a `use` tree: through leading `_classes::`
/// segments, a single name or the plain names of a group.
pub open spec fn hosts_in_use(u: UseNode, mixin: Seq<char>) -> Seq<Seq<char>>
    decreases u,
{
    match u {
        UseNode::Path { segment, rest } => if segment@ == "_classes"@ {
            hosts_in_use(*rest, mixin)
        } else {
            Seq::empty()
        },
        UseNode::Name(n) => host_of(n@, mixin),
        UseNode::Group(items) => hosts_in_group(items@, mixin),
        UseNode::Other => Seq::empty(),
    }
}

pub open spec fn hosts_in_items(items: Seq<SourceItem>, mixin: Seq<char>) -> Seq<Seq<char>>
    decreases items.len(),
{
    if items.len() == 0 {
        Seq::empty()
    } else {
        hosts_in_items(items.drop_last(), mixin) + match items.last() {
            SourceItem::Use(u) => hosts_in_use(u, mixin),
            _ => Seq::empty(),
        }
    }
}

/// The host classes of mixin `mixin`: the names `h` imported as `h_mixin`
/// by the `use` items of module `parent`, in order.
pub open spec fn host_classes_of(parent: ModuleNode, mixin: Seq<char>) -> Seq<Seq<char>> {
    match parent.content {
        Some(c) => hosts_in_items(c@, mixin),
        None => Seq::empty(),
    }
}

fn push_host(name: &String, suffix: &Vec<char>, host_classes: &mut Vec<String>)
    ensures
        string_views(final(host_classes)@) == string_views(old(host_classes)@) + match strip_suffix(
            name@,
            suffix@,
        ) {
            Some(h) => seq![h],
            None => Seq::<Seq<char>>::empty(),
        },
{
    let n = chars_of(name.as_str());
    match strip_suffix_chars(&n, suffix) {
        Some(h) => {
            let ghost before = string_views(host_classes@);
            host_classes.push(string_of(&h));
            assert(string_views(host_classes@) =~= before + seq![h@]);
        },
        None => {
            assert(string_views(host_classes@) =~= string_views(host_classes@) + Seq::<
                Seq<char>,
            >::empty());
        },
    }
}

fn traverse_use_tree(tree: &UseNode, suffix: &Vec<char>, mixin: Ghost<Seq<char>>, host_classes: &mut Vec<String>)
    requires
        suffix@ == "_"@ + mixin@,
    ensures
        string_views(final(host_classes)@) == string_views(old(host_classes)@) + hosts_in_use(
            *tree,
            mixin@,
        ),
    decreases *tree,
{
    match tree {
        UseNode::Path { segment, rest } => {
            let seg = chars_of(segment.as_str());
            if equals_str(&seg, "_classes") {
                traverse_use_tree(rest, suffix, mixin, host_classes);
            } else {
                assert(string_views(host_classes@) =~= string_views(host_classes@) + Seq::<
                    Seq<char>,
                >::empty());
            }
        },
        UseNode::Name(name) => {
            push_host(name, suffix, host_classes);
        },
        UseNode::Group(items) => {
            let ghost start = string_views(host_classes@);
            let mut i: usize = 0;
            while i < items.len()
                invariant
                    i <= items.len(),
                    suffix@ == "_"@ + mixin@,
                    string_views(host_classes@) == start + hosts_in_group(
                        items@.take(i as int),
                        mixin@,
                    ),
                decreases items.len() - i,
            {
                assert(items@.take(i + 1).drop_last() =~= items@.take(i as int));
                match &items[i] {
                    UseNode::Name(name) => {
                        push_host(name, suffix, host_classes);
                    },
                    _ => {},
                }
                assert(string_views(host_classes@) =~= start + hosts_in_group(
                    items@.take(i + 1),
                    mixin@,
                ));
                i = i + 1;
            }
            assert(items@.take(i as int) =~= items@);
        },
        UseNode::Other => {
            assert(string_views(host_classes@) =~= string_views(host_classes@) + Seq::<
                Seq<char>,
            >::empty());
        },
    }
}

fn host_suffix(mixin_name: &str) -> (r: Vec<char>)
    ensures
        r@ == "_"@ + mixin_name@,
{
    let u = chars_of("_");
    let m = chars_of(mixin_name);
    concat_chars(&u, &m)
}

/// Appends to `host_classes` the host classes of mixin `mixin_name` that
/// the `use` tree `use_item` imports (see `hosts_in_use`).
pub fn extract_use_info(use_item: &UseNode, mixin_name: &str, host_classes: &mut Vec<String>)
    ensures
        string_views(final(host_classes)@) == string_views(old(host_classes)@) + hosts_in_use(
            *use_item,
            mixin_name@,
        ),
{
    let suffix = host_suffix(mixin_name);
    traverse_use_tree(use_item, &suffix, Ghost(mixin_name@), host_classes);
}

/// The host classes of mixin `mixin_name` that the `use` items of module
/// `parent_mod` import (see `host_classes_of`).
pub fn extract_mixin_host_classes(parent_mod: &ModuleNode, mixin_name: &str) -> (r: Vec<String>)
    ensures
        string_views(r@) == host_classes_of(*parent_mod, mixin_name@),
{
    let mut host_classes: Vec<String> = Vec::new();
    match &parent_mod.content {
        None => {
            assert(string_views(host_classes@) =~= Seq::<Seq<char>>::empty());
        },
        Some(items) => {
            let mut i: usize = 0;
            assert(string_views(host_classes@) =~= hosts_in_items(items@.take(0), mixin_name@));
            while i < items.len()
                invariant
                    i <= items.len(),
                    parent_mod.content == Some(*items),
                    string_views(host_classes@) == hosts_in_items(
                        items@.take(i as int),
                        mixin_name@,
                    ),
                decreases items.len() - i,
            {
                assert(items@.take(i + 1).drop_last() =~= items@.take(i as int));
                match &items[i] {
                    SourceItem::Use(use_item) => {
                        extract_use_info(use_item, mixin_name, &mut host_classes);
                    },
                    _ => {},
                }
                assert(string_views(host_classes@) =~= hosts_in_items(
                    items@.take(i + 1),
                    mixin_name@,
                ));
                i = i + 1;
            }
            assert(items@.take(i as int) =~= items@);
        },
    }
    host_classes
}

// ---------------------------------------------------------------------
// Mixin instances defined inside a mixin's module
// ---------------------------------------------------------------------

/// The token text of a `TYPE` static that declares a mixin instance.
pub open spec fn is_instance_tokens(tokens: Seq<char>) -> bool {
    contains(tokens, "TypeInfo :: new_mixin_instance"@) || contains(
        tokens,
        "TypeInfo::new_mixin_instance"@,
    )
}

/// Some `TYPE` static among `items` declares a mixin instance.
pub open spec fn statics_mark_instance(items: Seq<SourceItem>) -> bool
    decreases items.len(),
{
    items.len() > 0 && (statics_mark_instance(items.drop_last()) || match items.last() {
        SourceItem::Static(st) => st.name@ == "TYPE"@ && is_instance_tokens(st.tokens@),
        _ => false,
    })
}

/// Some vtable module among `items` holds a `TYPE` static that declares a
/// mixin instance.
pub open spec fn vtables_mark_instance(items: Seq<SourceItem>) -> bool
    decreases items.len(),
{
    items.len() > 0 && (vtables_mark_instance(items.drop_last()) || match items.last() {
        SourceItem::Module(v) => is_vtable_name(v.name@) && match v.content {
            Some(c) => statics_mark_instance(c@),
            None => false,
        },
        _ => false,
    })
}

/// Submodule `sub` of the module of mixin `mixin` defines a mixin
/// instance: its name is `_` and more and mentions the mixin, and its
/// vtable declares an instance.
pub open spec fn is_instance_module(sub: ModuleNode, mixin: Seq<char>) -> bool {
    &&& sub.name@.len() > 1
    &&& sub.name@[0] == '_'
    &&& contains(sub.name@, mixin)
    &&& match sub.content {
        Some(c) => vtables_mark_instance(c@),
        None => false,
    }
}

/// What is reported of a mixin instance defined by module `sub`.
pub open spec fn instance_view(sub: ModuleNode) -> ClassView {
    ClassView {
        name: strip_leading(sub.name@, '_'),
        class_type: ClassType::Composite,
        extends: super_class_of(sub),
        implements: implements_of(sub),
        with: Seq::empty(),
    }
}

pub open spec fn instances_in(items: Seq<SourceItem>, mixin: Seq<char>) -> Seq<ClassView>
    decreases items.len(),
{
    if items.len() == 0 {
        Seq::empty()
    } else {
        instances_in(items.drop_last(), mixin) + match items.last() {
            SourceItem::Module(sub) => if is_instance_module(sub, mixin) {
                seq![instance_view(sub)]
            } else {
                Seq::empty()
            },
            _ => Seq::empty(),
        }
    }
}

/// The mixin instances defined inside the module of mixin `mixin`.
pub open spec fn instances_of(mixin_mod: ModuleNode, mixin: Seq<char>) -> Seq<ClassView> {
    match mixin_mod.content {
        Some(c) => instances_in(c@, mixin),
        None => Seq::empty(),
    }
}

fn statics_instance(items: &Vec<SourceItem>) -> (r: bool)
    ensures
        r == statics_mark_instance(items@),
{
    let mut i: usize = 0;
    while i < items.len()
        invariant
            i <= items.len(),
            !statics_mark_instance(items@.take(i as int)),
        decreases items.len() - i,
    {
        assert(items@.take(i + 1).drop_last() =~= items@.take(i as int));
        match &items[i] {
            SourceItem::Static(st) => {
                let n = chars_of(st.name.as_str());
                if equals_str(&n, "TYPE") {
                    let t = chars_of(st.tokens.as_str());
                    if contains_str(&t, "TypeInfo :: new_mixin_instance") || contains_str(
                        &t,
                        "TypeInfo::new_mixin_instance",
                    ) {
                        proof {
                            lemma_statics_mark_extends(items@, i + 1);
                        }
                        return true;
                    }
                }
            },
            _ => {},
        }
        i = i + 1;
    }
    assert(items@.take(i as int) =~= items@);
    false
}

pub proof fn lemma_statics_mark_extends(items: Seq<SourceItem>, k: int)
    requires
        0 <= k <= items.len(),
        statics_mark_instance(items.take(k)),
    ensures
        statics_mark_instance(items),
    decreases items.len() - k,
{
    if k < items.len() {
        assert(items.take(k + 1).drop_last() =~= items.take(k));
        lemma_statics_mark_extends(items, k + 1);
    } else {
        assert(items.take(k) =~= items);
    }
}

pub proof fn lemma_vtables_mark_extends(items: Seq<SourceItem>, k: int)
    requires
        0 <= k <= items.len(),
        vtables_mark_instance(items.take(k)),
    ensures
        vtables_mark_instance(items),
    decreases items.len() - k,
{
    if k < items.len() {
        assert(items.take(k + 1).drop_last() =~= items.take(k));
        lemma_vtables_mark_extends(items, k + 1);
    } else {
        assert(items.take(k) =~= items);
    }
}

fn vtables_instance(items: &Vec<SourceItem>) -> (r: bool)
    ensures
        r == vtables_mark_instance(items@),
{
    let mut i: usize = 0;
    while i < items.len()
        invariant
            i <= items.len(),
            !vtables_mark_instance(items@.take(i as int)),
        decreases items.len() - i,
    {
        assert(items@.take(i + 1).drop_last() =~= items@.take(i as int));
        match &items[i] {
            SourceItem::Module(v) => {
                let n = chars_of(v.name.as_str());
                if contains_str(&n, "vtable") || equals_str(&n, "vtable") {
                    match &v.content {
                        Some(vitems) => {
                            if statics_instance(vitems) {
                                proof {
                                    lemma_vtables_mark_extends(items@, i + 1);
                                }
                                return true;
                            }
                        },
                        None => {},
                    }
                }
            },
            _ => {},
        }
        i = i + 1;
    }
    assert(items@.take(i as int) =~= items@);
    false
}

/// The mixin instances defined inside the module of mixin `mixin_name`
/// (see `instances_of`), in order.
pub fn extract_composite_classes_from_mixin_module(mixin_mod: &ModuleNode, mixin_name: &str) -> (r:
    Vec<ClassInfo>)
    ensures
        class_views(r@) == instances_of(*mixin_mod, mixin_name@),
{
    let mut composite_classes: Vec<ClassInfo> = Vec::new();
    let mixin = chars_of(mixin_name);
    match &mixin_mod.content {
        None => {
            assert(class_views(composite_classes@) =~= Seq::<ClassView>::empty());
        },
        Some(items) => {
            let mut i: usize = 0;
            assert(class_views(composite_classes@) =~= instances_in(items@.take(0), mixin_name@));
            while i < items.len()
                invariant
                    i <= items.len(),
                    mixin@ == mixin_name@,
                    mixin_mod.content == Some(*items),
                    class_views(composite_classes@) == instances_in(
                        items@.take(i as int),
                        mixin_name@,
                    ),
                decreases items.len() - i,
            {
                assert(items@.take(i + 1).drop_last() =~= items@.take(i as int));
                let ghost before = class_views(composite_classes@);
                match &items[i] {
                    SourceItem::Module(sub) => {
                        let n = chars_of(sub.name.as_str());
                        if n.len() > 1 && n[0] == '_' && contains_str(&n, mixin_name) {
                            let marked = match &sub.content {
                                Some(sub_items) => vtables_instance(sub_items),
                                None => false,
                            };
                            if marked {
                                let class_name = string_of(&strip_leading_chars(&n, '_'));
                                let extends = extract_super_class(sub);
                                let implements = extract_implements(sub);
                                let with: Vec<String> = Vec::new();
                                let info = ClassInfo {
                                    name: class_name,
                                    class_type: ClassType::Composite,
                                    extends,
                                    implements,
                                    with,
                                };
                                assert(string_views(with@) =~= Seq::<Seq<char>>::empty());
                                composite_classes.push(info);
                                assert(class_views(composite_classes@) =~= before + seq![
                                    instance_view(*sub),
                                ]);
                            }
                        }
                    },
                    _ => {},
                }
                assert(class_views(composite_classes@) =~= instances_in(
                    items@.take(i + 1),
                    mixin_name@,
                ));
                i = i + 1;
            }
            assert(items@.take(i as int) =~= items@);
        },
    }
    composite_classes
}

// ---------------------------------------------------------------------
// The classes of a `_classes` module
// ---------------------------------------------------------------------

/// The mixins of a class that extends `extends`: the pieces after the first
/// when the superclass name is split at `_`.
pub open spec fn with_of(extends: Option<Seq<char>>) -> Seq<Seq<char>> {
    match extends {
        Some(p) => if contains(p, "_"@) {
            split(p, "_"@).skip(1)
        } else {
            Seq::empty()
        },
        None => Seq::empty(),
    }
}

/// A class module: its name starts with `_`.
pub open spec fn is_class_module(m: ModuleNode) -> bool {
    m.name@.len() > 0 && m.name@[0] == '_'
}

/// The name of the class that module `m` defines: its name without the
/// leading underscores.
pub open spec fn class_name_of(m: ModuleNode) -> Seq<char> {
    strip_leading(m.name@, '_')
}

/// What is reported of a class that is not a mixin.
pub open spec fn plain_class_view(m: ModuleNode) -> ClassView {
    ClassView {
        name: class_name_of(m),
        class_type: class_type_of(m),
        extends: super_class_of(m),
        implements: implements_of(m),
        with: with_of(super_class_of(m)),
    }
}

/// The classes contributed by class module `m`: the instances defined
/// inside a mixin's module, or the class itself.
pub open spec fn entry_classes(m: ModuleNode) -> Seq<ClassView> {
    if class_type_of(m) == ClassType::Mixin {
        instances_of(m, class_name_of(m))
    } else {
        seq![plain_class_view(m)]
    }
}

/// The mixin contributed by class module `m`, with its hosts imported in
/// module `parent`.
pub open spec fn entry_mixins(m: ModuleNode, parent: ModuleNode) -> Seq<MixinView> {
    if class_type_of(m) == ClassType::Mixin {
        seq![MixinView { name: class_name_of(m), host_classes: host_classes_of(parent, class_name_of(m)) }]
    } else {
        Seq::empty()
    }
}

pub open spec fn classes_in(items: Seq<SourceItem>) -> Seq<ClassView>
    decreases items.len(),
{
    if items.len() == 0 {
        Seq::empty()
    } else {
        classes_in(items.drop_last()) + match items.last() {
            SourceItem::Module(m) => if is_class_module(m) {
                entry_classes(m)
            } else {
                Seq::empty()
            },
            _ => Seq::empty(),
        }
    }
}

pub open spec fn mixins_in(items: Seq<SourceItem>, parent: ModuleNode) -> Seq<MixinView>
    decreases items.len(),
{
    if items.len() == 0 {
        Seq::empty()
    } else {
        mixins_in(items.drop_last(), parent) + match items.last() {
            SourceItem::Module(m) => if is_class_module(m) {
                entry_mixins(m, parent)
            } else {
                Seq::empty()
            },
            _ => Seq::empty(),
        }
    }
}

/// What is reported of module `path`, whose `_classes` module holds
/// `class_items` and which is itself `parent`.
pub open spec fn module_view(class_items: Seq<SourceItem>, path: Seq<char>, parent: ModuleNode) -> ModuleView {
    ModuleView { name: path, classes: classes_in(class_items), mixins: mixins_in(class_items, parent) }
}

fn with_from(extends: &Option<String>) -> (r: Vec<String>)
    ensures
        string_views(r@) == with_of(option_view(*extends)),
{
    match extends {
        Some(parent) => {
            let p = chars_of(parent.as_str());
            if contains_str(&p, "_") {
                let sep = chars_of("_");
                proof {
                    reveal_strlit("_");
                }
                let pieces = split_chars(&p, &sep);
                let mut r: Vec<String> = Vec::new();
                let mut i: usize = 1;
                proof {
                    crate::text::lemma_split_nonempty(p@, sep@);
                }
                assert(string_views(r@) =~= split(p@, sep@).subrange(1, 1));
                while i < pieces.len()
                    invariant
                        1 <= i <= pieces.len(),
                        pieces@.len() == split(p@, sep@).len(),
                        forall|k: int| 0 <= k < pieces@.len() ==> #[trigger] pieces@[k]@ == split(p@, sep@)[k],
                        string_views(r@) == split(p@, sep@).subrange(1, i as int),
                    decreases pieces.len() - i,
                {
                    let ghost before = string_views(r@);
                    assert(pieces@[i as int]@ == split(p@, sep@)[i as int]);
                    r.push(string_of(&pieces[i]));
                    assert(string_views(r@) =~= before.push(split(p@, sep@)[i as int]));
                    i = i + 1;
                    assert(string_views(r@) =~= split(p@, sep@).subrange(1, i as int));
                }
                assert(split(p@, sep@).subrange(1, i as int) =~= split(p@, sep@).skip(1));
                r
            } else {
                let r: Vec<String> = Vec::new();
                assert(string_views(r@) =~= Seq::<Seq<char>>::empty());
                r
            }
        },
        None => {
            let r: Vec<String> = Vec::new();
            assert(string_views(r@) =~= Seq::<Seq<char>>::empty());
            r
        },
    }
}

/// The classes and mixins defined by the class modules in `class_items`
/// (the content of a `_classes` module), reported under the name
/// `new_path`; the hosts of each mixin are read from the `use` items of
/// `parent_mod`.
pub fn extract_classes_from_module(class_items: &[SourceItem], new_path: &str, parent_mod: &ModuleNode) -> (r: ModuleInfo)
    ensures
        r@ == module_view(class_items@, new_path@, *parent_mod),
{
    let mut classes: Vec<ClassInfo> = Vec::new();
    let mut mixins: Vec<MixinInfo> = Vec::new();
    let mut i: usize = 0;
    assert(class_views(classes@) =~= classes_in(class_items@.take(0)));
    assert(mixin_views(mixins@) =~= mixins_in(class_items@.take(0), *parent_mod));
    while i < class_items.len()
        invariant
            i <= class_items.len(),
            class_views(classes@) == classes_in(class_items@.take(i as int)),
            mixin_views(mixins@) == mixins_in(class_items@.take(i as int), *parent_mod),
        decreases class_items.len() - i,
    {
        assert(class_items@.take(i + 1).drop_last() =~= class_items@.take(i as int));
        let ghost classes_before = class_views(classes@);
        let ghost mixins_before = mixin_views(mixins@);
        match &class_items[i] {
            SourceItem::Module(class_mod) => {
                let n = chars_of(class_mod.name.as_str());
                if n.len() > 0 && n[0] == '_' {
                    let class_name = string_of(&strip_leading_chars(&n, '_'));
                    let (class_type, _) = extract_class_type_from_vtable(class_mod);
                    if class_type == ClassType::Mixin {
                        let host_classes = extract_mixin_host_classes(parent_mod, class_name.as_str());
                        let mixin_info = MixinInfo { name: class_name.clone(), host_classes };
                        mixins.push(mixin_info);
                        assert(mixin_views(mixins@) =~= mixins_before + entry_mixins(*class_mod, *parent_mod));
                        let mut composite_classes = extract_composite_classes_from_mixin_module(
                            class_mod,
                            class_name.as_str(),
                        );
                        let ghost added = composite_classes@;
                        classes.append(&mut composite_classes);
                        assert(class_views(classes@) =~= classes_before + class_views(added));
                    } else {
                        let extends = extract_super_class(class_mod);
                        let implements = extract_implements(class_mod);
                        let with = with_from(&extends);
                        let class_info = ClassInfo { name: class_name, class_type, extends, implements, with };
                        classes.push(class_info);
                        assert(class_views(classes@) =~= classes_before + entry_classes(*class_mod));
                        assert(mixin_views(mixins@) =~= mixins_before + entry_mixins(*class_mod, *parent_mod));
                    }
                } else {
                    assert(class_views(classes@) =~= classes_before + Seq::<ClassView>::empty());
                    assert(mixin_views(mixins@) =~= mixins_before + Seq::<MixinView>::empty());
                }
            },
            _ => {
                assert(class_views(classes@) =~= classes_before + Seq::<ClassView>::empty());
                assert(mixin_views(mixins@) =~= mixins_before + Seq::<MixinView>::empty());
            },
        }
        i = i + 1;
    }
    assert(class_items@.take(i as int) =~= class_items@);
    let name = string_of(&chars_of(new_path));
    ModuleInfo { name, classes, mixins }
}

// ---------------------------------------------------------------------
// Walking the modules of a file
// ---------------------------------------------------------------------

/// An item that is a module named `_classes`.
pub open spec fn is_classes_module(item: SourceItem) -> bool {
    match item {
        SourceItem::Module(m) => m.name@ == "_classes"@,
        _ => false,
    }
}

/// Some item is a module named `_classes`.
pub open spec fn has_classes_module(items: Seq<SourceItem>) -> bool {
    exists|k: int| 0 <= k < items.len() && is_classes_module(#[trigger] items[k])
}

/// The content of the first module named `_classes` that has content.
pub open spec fn classes_items(items: Seq<SourceItem>) -> Option<Seq<SourceItem>>
    decreases items.len(),
{
    if items.len() == 0 {
        None
    } else {
        match classes_items(items.drop_last()) {
            Some(c) => Some(c),
            None => match items.last() {
                SourceItem::Module(m) => if m.name@ == "_classes"@ {
                    match m.content {
                        Some(c) => Some(c@),
                        None => None,
                    }
                } else {
                    None
                },
                _ => None,
            },
        }
    }
}

/// The path of module `name` inside the module at `path` (`""` at the top).
pub open spec fn child_path(path: Seq<char>, name: Seq<char>) -> Seq<char> {
    if path.len() == 0 {
        name
    } else {
        path + "::"@ + name
    }
}

/// The modules reported for `items`, found at `path`: in document order,
/// each module before the modules nested in it.
pub open spec fn modules_in(items: Seq<SourceItem>, path: Seq<char>) -> Seq<ModuleView>
    decreases items,
{
    if items.len() == 0 {
        Seq::empty()
    } else {
        modules_in(items.subrange(0, items.len() - 1), path) + modules_of(
            items[items.len() - 1],
            path,
        )
    }
}

/// The modules reported for one item at `path`: a module with content
/// that holds a `_classes` module is reported (when some `_classes` module
/// has content), then the modules nested in it.
pub open spec fn modules_of(item: SourceItem, path: Seq<char>) -> Seq<ModuleView>
    decreases item,
{
    match item {
        SourceItem::Module(m) => match m.content {
            Some(c) => {
                let new_path = child_path(path, m.name@);
                let own = if has_classes_module(c@) {
                    match classes_items(c@) {
                        Some(class_items) => seq![module_view(class_items, new_path, m)],
                        None => Seq::empty(),
                    }
                } else {
                    Seq::empty()
                };
                own + modules_in(c@, new_path)
            },
            None => Seq::empty(),
        },
        _ => Seq::empty(),
    }
}

pub proof fn lemma_first_classes_items(items: Seq<SourceItem>, k: int)
    requires
        0 <= k <= items.len(),
        classes_items(items.take(k)) is Some,
    ensures
        classes_items(items) == classes_items(items.take(k)),
    decreases items.len() - k,
{
    if k < items.len() {
        assert(items.take(k + 1).drop_last() =~= items.take(k));
        lemma_first_classes_items(items, k + 1);
    } else {
        assert(items.take(k) =~= items);
    }
}

/// The content of the first module named `_classes` among `items` that
/// has content.
pub fn find_classes_module(items: &[SourceItem]) -> (r: Option<&[SourceItem]>)
    ensures
        match r {
            Some(c) => classes_items(items@) == Some(c@),
            None => classes_items(items@) is None,
        },
{
    let mut i: usize = 0;
    while i < items.len()
        invariant
            i <= items.len(),
            classes_items(items@.take(i as int)) is None,
        decreases items.len() - i,
    {
        assert(items@.take(i + 1).drop_last() =~= items@.take(i as int));
        match &items[i] {
            SourceItem::Module(item_mod) => {
                let n = chars_of(item_mod.name.as_str());
                if equals_str(&n, "_classes") {
                    match &item_mod.content {
                        Some(sub_items) => {
                            proof {
                                lemma_first_classes_items(items@, i + 1);
                            }
                            return Some(sub_items.as_slice());
                        },
                        None => {},
                    }
                }
            },
            _ => {},
        }
        i = i + 1;
    }
    assert(items@.take(i as int) =~= items@);
    None
}

fn any_classes_module(items: &Vec<SourceItem>) -> (r: bool)
    ensures
        r == has_classes_module(items@),
{
    let mut i: usize = 0;
    while i < items.len()
        invariant
            i <= items.len(),
            forall|k: int| 0 <= k < i ==> !is_classes_module(#[trigger] items@[k]),
        decreases items.len() - i,
    {
        match &items[i] {
            SourceItem::Module(sub_mod) => {
                let n = chars_of(sub_mod.name.as_str());
                if equals_str(&n, "_classes") {
                    assert(is_classes_module(items@[i as int]));
                    return true;
                }
            },
            _ => {},
        }
        i = i + 1;
    }
    false
}

fn child_path_string(current_path: &String, mod_name: &String) -> (r: String)
    ensures
        r@ == child_path(current_path@, mod_name@),
{
    if current_path.as_str().is_empty() {
        return mod_name.clone();
    }
    let mut r = current_path.clone();
    r.append("::");
    r.append(mod_name.as_str());
    r
}

fn process_module(items: &Vec<SourceItem>, current_path: &String, modules: &mut Vec<ModuleInfo>)
    ensures
        module_views(final(modules)@) == module_views(old(modules)@) + modules_in(
            items@,
            current_path@,
        ),
    decreases items@,
{
    let ghost start = module_views(modules@);
    let mut i: usize = 0;
    assert(items@.subrange(0, 0) =~= Seq::<SourceItem>::empty());
    assert(module_views(modules@) =~= start + modules_in(items@.subrange(0, 0), current_path@));
    while i < items.len()
        invariant
            i <= items.len(),
            module_views(modules@) == start + modules_in(
                items@.subrange(0, i as int),
                current_path@,
            ),
        decreases items.len() - i,
    {
        assert(items@.subrange(0, i + 1).subrange(0, i as int) =~= items@.subrange(0, i as int));
        assert(items@.subrange(0, i + 1)[i as int] == items@[i as int]);
        let ghost before = module_views(modules@);
        match &items[i] {
            SourceItem::Module(item_mod) => {
                match &item_mod.content {
                    Some(sub_items) => {
                        let new_path = child_path_string(current_path, &item_mod.name);
                        if any_classes_module(sub_items) {
                            match find_classes_module(sub_items) {
                                Some(class_items) => {
                                    let module_info = extract_classes_from_module(
                                        class_items,
                                        new_path.as_str(),
                                        item_mod,
                                    );
                                    modules.push(module_info);
                                },
                                None => {},
                            }
                        }
                        process_module(sub_items, &new_path, modules);
                        assert(module_views(modules@) =~= before + modules_of(
                            items@[i as int],
                            current_path@,
                        ));
                    },
                    None => {
                        assert(module_views(modules@) =~= before + modules_of(
                            items@[i as int],
                            current_path@,
                        ));
                    },
                }
            },
            _ => {
                assert(module_views(modules@) =~= before + modules_of(
                    items@[i as int],
                    current_path@,
                ));
            },
        }
        i = i + 1;
    }
    assert(items@.subrange(0, i as int) =~= items@);
}

/// The modules reported for the items of a file (see `modules_in`).
pub fn extract_modules(items: &Vec<SourceItem>) -> (r: Vec<ModuleInfo>)
    ensures
        module_views(r@) == modules_in(items@, Seq::empty()),
{
    let mut modules: Vec<ModuleInfo> = Vec::new();
    let top = String::new();
    process_module(items, &top, &mut modules);
    assert(module_views(modules@) =~= modules_in(items@, Seq::empty()));
    modules
}

/// Parses `file_content` as a Rust source file and reports its modules.
/// `None` exactly when `syn` does not accept the text; otherwise the
/// modules reported for the items of the parsed tree (see `modules_in`).
pub fn extract_inheritance_info_by_module(file_content: &str) -> (r: Option<Vec<ModuleInfo>>)
    ensures
        r is Some <==> syn_parses(file_content@),
        r matches Some(modules) ==> module_views(modules@) == modules_in(
            syn_source_items(file_content@),
            Seq::empty(),
        ),
{
    match parse_source(file_content) {
        Some(items) => {
            let modules = extract_modules(&items);
            Some(modules)
        },
        None => None,
    }
}

} // verus!
