//! What one class module declares: its kind (from the `TYPE` static of its
//! vtable module), its superclass (from its `Super` type alias) and the
//! interfaces it implements (from its `HasImpl<I>` impls).
use vstd::prelude::*;

use crate::composite::{composite_class_name, extract_composite_class_name};
use crate::info::{option_view, string_views, ClassType};
use crate::source::{ImplNode, ModuleNode, PathNode, SourceItem, TypeNode, TypePathNode};
use crate::text::{
    chars_of, contains, contains_str, equals_str, lemma_split_nonempty, split, split_chars,
    string_of, trim, trim_chars,
};

verus! {

// ---------------------------------------------------------------------
// The kind of a class
// ---------------------------------------------------------------------

/// The kind that the token text of a `TYPE` static declares, if any: a
/// mixin instance, a mixin, or an ordinary (concrete or abstract) class.
pub open spec fn type_verdict(tokens: Seq<char>) -> Option<ClassType> {
    if contains(tokens, "TypeInfo :: new_mixin_instance"@) || contains(
        tokens,
        "TypeInfo::new_mixin_instance"@,
    ) || contains(tokens, "new_mixin_instance"@) || contains(tokens, "mixin_instance"@) {
        Some(ClassType::Composite)
    } else if contains(tokens, "TypeInfo :: new_mixin"@) || contains(
        tokens,
        "TypeInfo::new_mixin"@,
    ) || contains(tokens, "new_mixin"@) {
        Some(ClassType::Mixin)
    } else if contains(tokens, "TypeInfo :: new_concrete_class"@) || contains(
        tokens,
        "TypeInfo::new_concrete_class"@,
    ) || contains(tokens, "TypeInfo :: new_abstract_class"@) || contains(
        tokens,
        "TypeInfo::new_abstract_class"@,
    ) || contains(tokens, "new_concrete_class"@) || contains(tokens, "new_abstract_class"@) {
        Some(ClassType::Normal)
    } else {
        None
    }
}

/// A module whose name marks it as a vtable module.
pub open spec fn is_vtable_name(name: Seq<char>) -> bool {
    contains(name, "vtable"@) || name == "vtable"@
}

/// The verdict of the first `TYPE` static among `items` that declares a kind.
pub open spec fn statics_verdict(items: Seq<SourceItem>) -> Option<ClassType>
    decreases items.len(),
{
    if items.len() == 0 {
        None
    } else {
        match statics_verdict(items.drop_last()) {
            Some(v) => Some(v),
            None => match items.last() {
                SourceItem::Static(s) => if s.name@ == "TYPE"@ {
                    type_verdict(s.tokens@)
                } else {
                    None
                },
                _ => None,
            },
        }
    }
}

/// The first verdict found in the vtable modules among `items`.
pub open spec fn vtable_verdict(items: Seq<SourceItem>) -> Option<ClassType>
    decreases items.len(),
{
    if items.len() == 0 {
        None
    } else {
        match vtable_verdict(items.drop_last()) {
            Some(v) => Some(v),
            None => match items.last() {
                SourceItem::Module(v) => if is_vtable_name(v.name@) {
                    match v.content {
                        Some(c) => statics_verdict(c@),
                        None => None,
                    }
                } else {
                    None
                },
                _ => None,
            },
        }
    }
}

/// The first kind other than `Normal` among the submodules in `items`.
pub open spec fn submodule_verdict(items: Seq<SourceItem>) -> Option<ClassType>
    decreases items,
{
    if items.len() == 0 {
        None
    } else {
        match submodule_verdict(items.subrange(0, items.len() - 1)) {
            Some(v) => Some(v),
            None => match items[items.len() - 1] {
                SourceItem::Module(m) => {
                    let t = class_type_of(m);
                    if t != ClassType::Normal {
                        Some(t)
                    } else {
                        None
                    }
                },
                _ => None,
            },
        }
    }
}

/// The kind of the class that module `m` defines: what the `TYPE` static
/// of a vtable module directly inside it declares; failing that, the
/// first kind other than `Normal` of a submodule; failing that, `Normal`.
pub open spec fn class_type_of(m: ModuleNode) -> ClassType
    decreases m,
{
    match m.content {
        Some(c) => match vtable_verdict(c@) {
            Some(t) => t,
            None => match submodule_verdict(c@) {
                Some(t) => t,
                None => ClassType::Normal,
            },
        },
        None => ClassType::Normal,
    }
}

fn tokens_verdict(tokens: &String) -> (r: Option<ClassType>)
    ensures
        r == type_verdict(tokens@),
{
    let t = chars_of(tokens.as_str());
    if contains_str(&t, "TypeInfo :: new_mixin_instance") || contains_str(
        &t,
        "TypeInfo::new_mixin_instance",
    ) || contains_str(&t, "new_mixin_instance") || contains_str(&t, "mixin_instance") {
        Some(ClassType::Composite)
    } else if contains_str(&t, "TypeInfo :: new_mixin") || contains_str(&t, "TypeInfo::new_mixin")
        || contains_str(&t, "new_mixin") {
        Some(ClassType::Mixin)
    } else if contains_str(&t, "TypeInfo :: new_concrete_class") || contains_str(
        &t,
        "TypeInfo::new_concrete_class",
    ) || contains_str(&t, "TypeInfo :: new_abstract_class") || contains_str(
        &t,
        "TypeInfo::new_abstract_class",
    ) || contains_str(&t, "new_concrete_class") || contains_str(&t, "new_abstract_class") {
        Some(ClassType::Normal)
    } else {
        None
    }
}

fn vtable_name(name: &String) -> (r: bool)
    ensures
        r == is_vtable_name(name@),
{
    let n = chars_of(name.as_str());
    contains_str(&n, "vtable") || equals_str(&n, "vtable")
}

fn find_statics_verdict(items: &Vec<SourceItem>) -> (r: Option<ClassType>)
    ensures
        r == statics_verdict(items@),
{
    let mut i: usize = 0;
    while i < items.len()
        invariant
            i <= items.len(),
            statics_verdict(items@.take(i as int)) is None,
        decreases items.len() - i,
    {
        assert(items@.take(i + 1).drop_last() =~= items@.take(i as int));
        match &items[i] {
            SourceItem::Static(s) => {
                let n = chars_of(s.name.as_str());
                if equals_str(&n, "TYPE") {
                    let v = tokens_verdict(&s.tokens);
                    if v.is_some() {
                        assert(statics_verdict(items@.take(i + 1)) == v);
                        assert(statics_verdict(items@) == v) by {
                            lemma_first_found_statics(items@, i as int + 1);
                        }
                        return v;
                    }
                }
            },
            _ => {},
        }
        i = i + 1;
    }
    assert(items@.take(i as int) =~= items@);
    None
}

/// A verdict found in a prefix stays the verdict of every extension.
pub proof fn lemma_first_found_statics(items: Seq<SourceItem>, k: int)
    requires
        0 <= k <= items.len(),
        statics_verdict(items.take(k)) is Some,
    ensures
        statics_verdict(items) == statics_verdict(items.take(k)),
    decreases items.len() - k,
{
    if k < items.len() {
        assert(items.take(k + 1).drop_last() =~= items.take(k));
        lemma_first_found_statics(items, k + 1);
    } else {
        assert(items.take(k) =~= items);
    }
}

pub proof fn lemma_first_found_vtable(items: Seq<SourceItem>, k: int)
    requires
        0 <= k <= items.len(),
        vtable_verdict(items.take(k)) is Some,
    ensures
        vtable_verdict(items) == vtable_verdict(items.take(k)),
    decreases items.len() - k,
{
    if k < items.len() {
        assert(items.take(k + 1).drop_last() =~= items.take(k));
        lemma_first_found_vtable(items, k + 1);
    } else {
        assert(items.take(k) =~= items);
    }
}

pub proof fn lemma_first_found_submodule(items: Seq<SourceItem>, k: int)
    requires
        0 <= k <= items.len(),
        submodule_verdict(items.take(k)) is Some,
    ensures
        submodule_verdict(items) == submodule_verdict(items.take(k)),
    decreases items.len() - k,
{
    if k < items.len() {
        assert(items.take(k + 1).subrange(0, k) =~= items.take(k));
        lemma_first_found_submodule(items, k + 1);
    } else {
        assert(items.take(k) =~= items);
    }
}

/// The kind of the class that module `item_mod` defines (see
/// `class_type_of`); the second component is always `None`.
pub fn extract_class_type_from_vtable(item_mod: &ModuleNode) -> (r: (ClassType, Option<String>))
    ensures
        r.0 == class_type_of(*item_mod),
        r.1 is None,
    decreases *item_mod,
{
    match &item_mod.content {
        None => (ClassType::Normal, None),
        Some(items) => {
            let mut i: usize = 0;
            while i < items.len()
                invariant
                    i <= items.len(),
                    item_mod.content == Some(*items),
                    vtable_verdict(items@.take(i as int)) is None,
                decreases items.len() - i,
            {
                assert(items@.take(i + 1).drop_last() =~= items@.take(i as int));
                match &items[i] {
                    SourceItem::Module(v) => {
                        if vtable_name(&v.name) {
                            match &v.content {
                                Some(vitems) => {
                                    let found = find_statics_verdict(vitems);
                                    match found {
                                        Some(t) => {
                                            assert(vtable_verdict(items@.take(i + 1)) == Some(t));
                                            proof {
                                                lemma_first_found_vtable(items@, i + 1);
                                            }
                                            return (t, None);
                                        },
                                        None => {},
                                    }
                                },
                                None => {},
                            }
                        }
                    },
                    _ => {},
                }
                i = i + 1;
            }
            assert(items@.take(i as int) =~= items@);
            let mut j: usize = 0;
            while j < items.len()
                invariant
                    j <= items.len(),
                    item_mod.content == Some(*items),
                    vtable_verdict(items@) is None,
                    submodule_verdict(items@.take(j as int)) is None,
                decreases items.len() - j,
            {
                assert(items@.take(j + 1).subrange(0, j as int) =~= items@.take(j as int));
                match &items[j] {
                    SourceItem::Module(sub) => {
                        let (t, _) = extract_class_type_from_vtable(sub);
                        if t != ClassType::Normal {
                            assert(submodule_verdict(items@.take(j + 1)) == Some(t));
                            proof {
                                lemma_first_found_submodule(items@, j + 1);
                            }
                            return (t, None);
                        }
                    },
                    _ => {},
                }
                j = j + 1;
            }
            assert(items@.take(j as int) =~= items@);
            (ClassType::Normal, None)
        },
    }
}

// ---------------------------------------------------------------------
// The superclass
// ---------------------------------------------------------------------

/// The superclass named by the token text `t` of a `Super` alias: the
/// composite name when `t` mentions `MixinWith` and one is found; else the
/// trimmed last piece after `::`; else the trimmed piece before the first
/// `<`; else `t` itself.
pub open spec fn super_name(t: Seq<char>) -> Seq<char> {
    if contains(t, "MixinWith"@) && composite_class_name(t) is Some {
        composite_class_name(t)->0
    } else if contains(t, "::"@) {
        trim(split(t, "::"@).last())
    } else if contains(t, "<"@) {
        trim(split(t, "<"@)[0])
    } else {
        t
    }
}

/// The superclass declared by the first `type Super = ..` alias among
/// `items` whose aliased type is a path type.
pub open spec fn super_in(items: Seq<SourceItem>) -> Option<Seq<char>>
    decreases items.len(),
{
    if items.len() == 0 {
        None
    } else {
        match super_in(items.drop_last()) {
            Some(n) => Some(n),
            None => match items.last() {
                SourceItem::TypeAlias(a) => if a.name@ == "Super"@ {
                    match a.path_tokens {
                        Some(t) => Some(super_name(t@)),
                        None => None,
                    }
                } else {
                    None
                },
                _ => None,
            },
        }
    }
}

/// The superclass that class module `m` declares, if any.
pub open spec fn super_class_of(m: ModuleNode) -> Option<Seq<char>> {
    match m.content {
        Some(c) => super_in(c@),
        None => None,
    }
}

/// The last piece of `t` split at `sep`.
fn last_piece(t: &Vec<char>, sep: &str) -> (r: Vec<char>)
    ensures
        r@ == split(t@, sep@).last(),
{
    let s = chars_of(sep);
    if s.len() == 0 {
        return t.clone();
    }
    let pieces = split_chars(t, &s);
    proof {
        lemma_split_nonempty(t@, s@);
    }
    pieces[pieces.len() - 1].clone()
}

/// The first piece of `t` split at `sep`.
fn first_piece(t: &Vec<char>, sep: &str) -> (r: Vec<char>)
    ensures
        r@ == split(t@, sep@)[0],
{
    let s = chars_of(sep);
    if s.len() == 0 {
        return t.clone();
    }
    let pieces = split_chars(t, &s);
    proof {
        lemma_split_nonempty(t@, s@);
    }
    pieces[0].clone()
}

fn super_from_tokens(type_str: &String) -> (r: String)
    ensures
        r@ == super_name(type_str@),
{
    let t = chars_of(type_str.as_str());
    if contains_str(&t, "MixinWith") {
        match extract_composite_class_name(type_str.as_str()) {
            Some(name) => {
                return name;
            },
            None => {},
        }
    }
    if contains_str(&t, "::") {
        let piece = last_piece(&t, "::");
        return string_of(&trim_chars(&piece));
    }
    if contains_str(&t, "<") {
        let piece = first_piece(&t, "<");
        return string_of(&trim_chars(&piece));
    }
    type_str.clone()
}

/// The superclass that class module `item_mod` declares with its first
/// `type Super = ..` alias of a path type (see `super_name`).
pub fn extract_super_class(item_mod: &ModuleNode) -> (r: Option<String>)
    ensures
        option_view(r) == super_class_of(*item_mod),
{
    match &item_mod.content {
        None => None,
        Some(items) => {
            let mut i: usize = 0;
            while i < items.len()
                invariant
                    i <= items.len(),
                    item_mod.content == Some(*items),
                    super_in(items@.take(i as int)) is None,
                decreases items.len() - i,
            {
                assert(items@.take(i + 1).drop_last() =~= items@.take(i as int));
                match &items[i] {
                    SourceItem::TypeAlias(a) => {
                        let n = chars_of(a.name.as_str());
                        if equals_str(&n, "Super") {
                            match &a.path_tokens {
                                Some(t) => {
                                    let name = super_from_tokens(t);
                                    assert(super_in(items@.take(i + 1)) == Some(name@));
                                    proof {
                                        lemma_first_found_super(items@, i + 1);
                                    }
                                    return Some(name);
                                },
                                None => {},
                            }
                        }
                    },
                    _ => {},
                }
                i = i + 1;
            }
            assert(items@.take(i as int) =~= items@);
            None
        },
    }
}

pub proof fn lemma_first_found_super(items: Seq<SourceItem>, k: int)
    requires
        0 <= k <= items.len(),
        super_in(items.take(k)) is Some,
    ensures
        super_in(items) == super_in(items.take(k)),
    decreases items.len() - k,
{
    if k < items.len() {
        assert(items.take(k + 1).drop_last() =~= items.take(k));
        lemma_first_found_super(items, k + 1);
    } else {
        assert(items.take(k) =~= items);
    }
}

// ---------------------------------------------------------------------
// Implemented interfaces
// ---------------------------------------------------------------------

/// The identifier of the last segment of a path type, or `Unknown`.
pub open spec fn type_path_name(tp: TypePathNode) -> Seq<char> {
    match tp.last_ident {
        Some(i) => i@,
        None => "Unknown"@,
    }
}

/// The name of a type: that of a path type, else `Unknown`.
pub open spec fn type_name_of(ty: TypeNode) -> Seq<char> {
    match ty {
        TypeNode::Path(tp) => type_path_name(tp),
        TypeNode::Other => "Unknown"@,
    }
}

/// The last segment of the path is `HasImpl`.
pub open spec fn is_has_impl(p: PathNode) -> bool {
    match p.last_segment {
        Some(seg) => seg.ident@ == "HasImpl"@,
        None => false,
    }
}

/// The name of the type given first in angle brackets to the last segment.
pub open spec fn interface_of(p: PathNode) -> Option<Seq<char>> {
    match p.last_segment {
        Some(seg) => match seg.first_type_arg {
            Some(t) => Some(type_name_of(t)),
            None => None,
        },
        None => None,
    }
}

/// The interface `I` of an `impl HasImpl<I> for ..` block.
pub open spec fn implemented_interface(i: ImplNode) -> Option<Seq<char>> {
    match i.trait_path {
        Some(p) => if is_has_impl(p) {
            interface_of(p)
        } else {
            None
        },
        None => None,
    }
}

/// The interfaces that the `HasImpl` impls among `items` name, each once,
/// in the order of their first impl.
pub open spec fn implements_in(items: Seq<SourceItem>) -> Seq<Seq<char>>
    decreases items.len(),
{
    if items.len() == 0 {
        Seq::empty()
    } else {
        let before = implements_in(items.drop_last());
        match items.last() {
            SourceItem::Impl(i) => match implemented_interface(i) {
                Some(n) => if before.contains(n) {
                    before
                } else {
                    before.push(n)
                },
                None => before,
            },
            _ => before,
        }
    }
}

/// The interfaces that class module `m` implements.
pub open spec fn implements_of(m: ModuleNode) -> Seq<Seq<char>> {
    match m.content {
        Some(c) => implements_in(c@),
        None => Seq::empty(),
    }
}

/// The identifier of the last segment of a path type, or `Unknown` when the
/// path has no segment.
pub fn extract_type_name(type_path: &TypePathNode) -> (r: String)
    ensures
        r@ == type_path_name(*type_path),
{
    match &type_path.last_ident {
        Some(i) => i.clone(),
        None => {
            let u = chars_of("Unknown");
            string_of(&u)
        },
    }
}

/// The name of a type: that of a path type, else `Unknown`.
pub fn extract_type_name_from_type(ty: &TypeNode) -> (r: String)
    ensures
        r@ == type_name_of(*ty),
{
    match ty {
        TypeNode::Path(tp) => extract_type_name(tp),
        TypeNode::Other => {
            let u = chars_of("Unknown");
            string_of(&u)
        },
    }
}

/// Whether the last segment of the path is `HasImpl`.
pub fn is_has_impl_trait(path: &PathNode) -> (r: bool)
    ensures
        r == is_has_impl(*path),
{
    match &path.last_segment {
        Some(seg) => {
            let id = chars_of(seg.ident.as_str());
            equals_str(&id, "HasImpl")
        },
        None => false,
    }
}

/// The interface named by the first type argument of the last segment of
/// the path (`I` in `HasImpl<I>`).
pub fn extract_interface_from_has_impl(path: &PathNode) -> (r: Option<String>)
    ensures
        option_view(r) == interface_of(*path),
{
    match &path.last_segment {
        Some(seg) => match &seg.first_type_arg {
            Some(t) => Some(extract_type_name_from_type(t)),
            None => None,
        },
        None => None,
    }
}

fn contains_string(v: &Vec<String>, s: &String) -> (r: bool)
    ensures
        r == string_views(v@).contains(s@),
{
    let mut i: usize = 0;
    while i < v.len()
        invariant
            i <= v.len(),
            forall|k: int| 0 <= k < i ==> v@[k]@ != s@,
        decreases v.len() - i,
    {
        if v[i] == *s {
            assert(string_views(v@)[i as int] == s@);
            return true;
        }
        i = i + 1;
    }
    proof {
        if string_views(v@).contains(s@) {
            let k = choose|k: int| 0 <= k < string_views(v@).len() && string_views(v@)[k] == s@;
            assert(v@[k]@ == s@);
        }
    }
    false
}

/// The interfaces `I` of the `impl HasImpl<I> for ..` blocks directly
/// inside class module `item_mod`, each once, in order of appearance.
pub fn extract_implements(item_mod: &ModuleNode) -> (r: Vec<String>)
    ensures
        string_views(r@) == implements_of(*item_mod),
{
    let mut interfaces: Vec<String> = Vec::new();
    match &item_mod.content {
        None => {
            assert(string_views(interfaces@) =~= Seq::<Seq<char>>::empty());
        },
        Some(items) => {
            let mut i: usize = 0;
            assert(string_views(interfaces@) =~= implements_in(items@.take(0)));
            while i < items.len()
                invariant
                    i <= items.len(),
                    item_mod.content == Some(*items),
                    string_views(interfaces@) == implements_in(items@.take(i as int)),
                decreases items.len() - i,
            {
                assert(items@.take(i + 1).drop_last() =~= items@.take(i as int));
                let ghost before = string_views(interfaces@);
                match &items[i] {
                    SourceItem::Impl(item_impl) => {
                        match &item_impl.trait_path {
                            Some(trait_path) => {
                                if is_has_impl_trait(trait_path) {
                                    match extract_interface_from_has_impl(trait_path) {
                                        Some(interface) => {
                                            if !contains_string(&interfaces, &interface) {
                                                interfaces.push(interface);
                                                assert(string_views(interfaces@) =~= before.push(
                                                    interface@,
                                                ));
                                            }
                                        },
                                        None => {},
                                    }
                                }
                            },
                            None => {},
                        }
                    },
                    _ => {},
                }
                i = i + 1;
            }
            assert(items@.take(i as int) =~= items@);
        },
    }
    interfaces
}

} // verus!
