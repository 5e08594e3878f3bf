//! Laws on lists that the extractor walks item by item: every item is
//! looked at, in order, wherever it stands in the list.
use vstd::prelude::*;

use crate::classify::{is_vtable_name, statics_verdict, type_verdict, vtable_verdict};
use crate::extract::{
    classes_in, entry_classes, entry_mixins, host_of, hosts_in_group, hosts_in_items,
    hosts_in_use, instance_view, instances_in, is_class_module, is_instance_module, mixins_in,
    modules_in, modules_of,
};
use crate::info::{ClassType, ClassView, MixinView};
use crate::report::{
    class_text, classes_text, instance_text, instances_text, mixin_text, mixins_text,
};
use crate::source::{ModuleNode, SourceItem, UseNode};

verus! {

// ---------------------------------------------------------------------
// The kind declared by the statics of a vtable module
// ---------------------------------------------------------------------

/// The item is a static named `TYPE`.
pub open spec fn is_type_static(item: SourceItem) -> bool {
    match item {
        SourceItem::Static(s) => s.name@ == "TYPE"@,
        _ => false,
    }
}

/// The statics of a vtable module are read in order: the verdict of the
/// items `a` followed by `b` is that of `a` when `a` decides, else that of
/// `b`.
pub proof fn law_statics_verdict_concat(a: Seq<SourceItem>, b: Seq<SourceItem>)
    ensures
        statics_verdict(a + b) == match statics_verdict(a) {
            Some(v) => Some(v),
            None => statics_verdict(b),
        },
    decreases b.len(),
{
    if b.len() == 0 {
        assert(a + b =~= a);
    } else {
        law_statics_verdict_concat(a, b.drop_last());
        assert((a + b).drop_last() =~= a + b.drop_last());
        assert((a + b).last() == b.last());
    }
}

/// An item that is not a `TYPE` static changes nothing: putting it in front
/// of the items of a vtable module leaves the verdict as it was.
pub proof fn law_statics_verdict_ignores_other_items(x: SourceItem, items: Seq<SourceItem>)
    requires
        !is_type_static(x),
    ensures
        statics_verdict(seq![x] + items) == statics_verdict(items),
{
    assert(seq![x].drop_last() =~= Seq::<SourceItem>::empty());
    assert(seq![x].last() == x);
    assert(statics_verdict(seq![x].drop_last()) is None);
    assert(statics_verdict(seq![x]) is None);
    law_statics_verdict_concat(seq![x], items);
}

proof fn lemma_no_type_static(items: Seq<SourceItem>)
    requires
        forall|k: int| 0 <= k < items.len() ==> !is_type_static(#[trigger] items[k]),
    ensures
        statics_verdict(items) is None,
    decreases items.len(),
{
    if items.len() > 0 {
        let init = items.drop_last();
        assert forall|k: int| 0 <= k < init.len() implies !is_type_static(#[trigger] init[k]) by {
            assert(init[k] == items[k]);
        }
        lemma_no_type_static(init);
        assert(!is_type_static(items[items.len() - 1]));
    }
}

/// A `TYPE` static after any number of items that are not `TYPE` statics
/// decides the kind by its tokens: one that declares `new_mixin` makes a
/// mixin, whatever precedes it.
pub proof fn law_type_static_decides_after_other_items(pre: Seq<SourceItem>, t: SourceItem)
    requires
        forall|k: int| 0 <= k < pre.len() ==> !is_type_static(#[trigger] pre[k]),
        t matches SourceItem::Static(s) && s.name@ == "TYPE"@,
    ensures
        t matches SourceItem::Static(s) && statics_verdict(pre.push(t)) == type_verdict(
            s.tokens@,
        ),
{
    lemma_no_type_static(pre);
    assert(pre.push(t).drop_last() =~= pre);
}

/// The same for a `TYPE` static whose tokens declare a mixin: the kind is
/// `Mixin`.
pub proof fn law_mixin_static_after_other_items(pre: Seq<SourceItem>, t: SourceItem)
    requires
        forall|k: int| 0 <= k < pre.len() ==> !is_type_static(#[trigger] pre[k]),
        t matches SourceItem::Static(s) && s.name@ == "TYPE"@ && type_verdict(s.tokens@) == Some(
            ClassType::Mixin,
        ),
    ensures
        statics_verdict(pre.push(t)) == Some(ClassType::Mixin),
{
    law_type_static_decides_after_other_items(pre, t);
}

// ---------------------------------------------------------------------
// The hosts named by a `use` group
// ---------------------------------------------------------------------

/// Every name of a `use` group is examined: the hosts of the names `a`
/// followed by `b` are the hosts of `a` followed by the hosts of `b`.
pub proof fn law_group_hosts_concat(a: Seq<UseNode>, b: Seq<UseNode>, mixin: Seq<char>)
    ensures
        hosts_in_group(a + b, mixin) == hosts_in_group(a, mixin) + hosts_in_group(b, mixin),
    decreases b.len(),
{
    if b.len() == 0 {
        assert(a + b =~= a);
        assert(hosts_in_group(a, mixin) + hosts_in_group(b, mixin) =~= hosts_in_group(a, mixin));
    } else {
        law_group_hosts_concat(a, b.drop_last(), mixin);
        assert((a + b).drop_last() =~= a + b.drop_last());
        assert((a + b).last() == b.last());
        let tail = match b.last() {
            UseNode::Name(n) => host_of(n@, mixin),
            _ => Seq::empty(),
        };
        assert(hosts_in_group(a, mixin) + hosts_in_group(b.drop_last(), mixin) + tail
            =~= hosts_in_group(a, mixin) + (hosts_in_group(b.drop_last(), mixin) + tail));
    }
}

/// A group of one plain name `n` names the host that `n` names.
pub proof fn law_group_of_one_name(n: String, mixin: Seq<char>)
    ensures
        hosts_in_group(seq![UseNode::Name(n)], mixin) == host_of(n@, mixin),
{
    let one = seq![UseNode::Name(n)];
    assert(one.drop_last() =~= Seq::<UseNode>::empty());
    assert(one.last() == UseNode::Name(n));
    assert(hosts_in_group(one.drop_last(), mixin) == Seq::<Seq<char>>::empty());
    assert(Seq::<Seq<char>>::empty() + host_of(n@, mixin) =~= host_of(n@, mixin));
}

/// A name is listed as a host exactly when some plain name of the group
/// names it.
pub proof fn law_group_host_listed(items: Seq<UseNode>, mixin: Seq<char>, h: Seq<char>)
    ensures
        hosts_in_group(items, mixin).contains(h) <==> exists|k: int|
            0 <= k < items.len() && (#[trigger] items[k] matches UseNode::Name(n) && host_of(
                n@,
                mixin,
            ) == seq![h]),
    decreases items.len(),
{
    if items.len() > 0 {
        let init = items.drop_last();
        let last = items.last();
        law_group_host_listed(init, mixin, h);
        let before = hosts_in_group(init, mixin);
        let tail = match last {
            UseNode::Name(n) => host_of(n@, mixin),
            _ => Seq::empty(),
        };
        let all = hosts_in_group(items, mixin);
        assert(all == before + tail);
        let names_h = |it: UseNode| it matches UseNode::Name(n) && host_of(n@, mixin) == seq![h];
        assert(tail.contains(h) <==> names_h(last)) by {
            if let UseNode::Name(n) = last {
                if tail.contains(h) {
                    let j = choose|j: int| 0 <= j < tail.len() && tail[j] == h;
                    if strip_suffix_is_some(n@, mixin) {
                        assert(tail.len() == 1);
                        assert(tail =~= seq![h]);
                    } else {
                        assert(tail.len() == 0);
                    }
                }
                if names_h(last) {
                    assert(tail[0] == h);
                }
            }
        }
        assert(all.contains(h) <==> before.contains(h) || tail.contains(h)) by {
            if all.contains(h) {
                let j = choose|j: int| 0 <= j < all.len() && all[j] == h;
                if j < before.len() {
                    assert(before[j] == h);
                } else {
                    assert(tail[j - before.len()] == h);
                }
            }
            if before.contains(h) {
                let j = choose|j: int| 0 <= j < before.len() && before[j] == h;
                assert(all[j] == h);
            }
            if tail.contains(h) {
                let j = choose|j: int| 0 <= j < tail.len() && tail[j] == h;
                assert(all[before.len() + j] == h);
            }
        }
        assert((exists|k: int| 0 <= k < items.len() && names_h(#[trigger] items[k])) <==> (exists|
            k: int,
        | 0 <= k < init.len() && names_h(#[trigger] init[k])) || names_h(last)) by {
            if exists|k: int| 0 <= k < items.len() && names_h(#[trigger] items[k]) {
                let k = choose|k: int| 0 <= k < items.len() && names_h(#[trigger] items[k]);
                if k < init.len() {
                    assert(init[k] == items[k]);
                }
            }
            if exists|k: int| 0 <= k < init.len() && names_h(#[trigger] init[k]) {
                let k = choose|k: int| 0 <= k < init.len() && names_h(#[trigger] init[k]);
                assert(items[k] == init[k]);
            }
            if names_h(last) {
                assert(items[items.len() - 1] == last);
            }
        }
    }
}

spec fn strip_suffix_is_some(name: Seq<char>, mixin: Seq<char>) -> bool {
    crate::text::strip_suffix(name, "_"@ + mixin) is Some
}

// ---------------------------------------------------------------------
// The mixins of a module in the report
// ---------------------------------------------------------------------

/// Every mixin of a module is reported, in order: the report of the mixins
/// `a` followed by `b` is the report of `a` followed by that of `b`.
pub proof fn law_mixins_text_concat(a: Seq<MixinView>, b: Seq<MixinView>)
    ensures
        mixins_text(a + b) == mixins_text(a) + mixins_text(b),
    decreases b.len(),
{
    if b.len() == 0 {
        assert(a + b =~= a);
        assert(mixins_text(a) + mixins_text(b) =~= mixins_text(a));
    } else {
        law_mixins_text_concat(a, b.drop_last());
        assert((a + b).drop_last() =~= a + b.drop_last());
        assert((a + b).last() == b.last());
        assert(mixins_text(a) + mixins_text(b.drop_last()) + mixin_text(b.last()) =~= mixins_text(
            a,
        ) + (mixins_text(b.drop_last()) + mixin_text(b.last())));
    }
}

/// One mixin is reported by its own block.
pub proof fn law_mixins_text_one(m: MixinView)
    ensures
        mixins_text(seq![m]) == mixin_text(m),
{
    assert(seq![m].drop_last() =~= Seq::<MixinView>::empty());
    assert(seq![m].last() == m);
    assert(mixins_text(seq![m].drop_last()) == Seq::<char>::empty());
    assert(Seq::<char>::empty() + mixin_text(m) =~= mixin_text(m));
}

// ---------------------------------------------------------------------
// The vtable modules of a class module
// ---------------------------------------------------------------------

/// The item is a module named as a vtable module.
pub open spec fn is_vtable_module(item: SourceItem) -> bool {
    match item {
        SourceItem::Module(v) => is_vtable_name(v.name@),
        _ => false,
    }
}

/// The vtable modules of a class module are read in order: the verdict of
/// the items `a` followed by `b` is that of `a` when `a` decides, else that
/// of `b`.
pub proof fn law_vtable_verdict_concat(a: Seq<SourceItem>, b: Seq<SourceItem>)
    ensures
        vtable_verdict(a + b) == match vtable_verdict(a) {
            Some(v) => Some(v),
            None => vtable_verdict(b),
        },
    decreases b.len(),
{
    if b.len() == 0 {
        assert(a + b =~= a);
    } else {
        law_vtable_verdict_concat(a, b.drop_last());
        assert((a + b).drop_last() =~= a + b.drop_last());
        assert((a + b).last() == b.last());
    }
}

/// An item that is not a vtable module changes nothing: putting it in
/// front of the items of a class module leaves the verdict as it was.
pub proof fn law_vtable_verdict_ignores_other_items(x: SourceItem, items: Seq<SourceItem>)
    requires
        !is_vtable_module(x),
    ensures
        vtable_verdict(seq![x] + items) == vtable_verdict(items),
{
    assert(seq![x].drop_last() =~= Seq::<SourceItem>::empty());
    assert(seq![x].last() == x);
    assert(vtable_verdict(seq![x].drop_last()) is None);
    assert(vtable_verdict(seq![x]) is None);
    law_vtable_verdict_concat(seq![x], items);
}

// ---------------------------------------------------------------------
// The hosts named by the `use` items of a module
// ---------------------------------------------------------------------

/// Every `use` item of the parent module is examined: the hosts of the
/// items `a` followed by `b` are the hosts of `a` followed by those of `b`.
pub proof fn law_use_hosts_concat(a: Seq<SourceItem>, b: Seq<SourceItem>, mixin: Seq<char>)
    ensures
        hosts_in_items(a + b, mixin) == hosts_in_items(a, mixin) + hosts_in_items(b, mixin),
    decreases b.len(),
{
    if b.len() == 0 {
        assert(a + b =~= a);
        assert(hosts_in_items(a, mixin) + hosts_in_items(b, mixin) =~= hosts_in_items(a, mixin));
    } else {
        law_use_hosts_concat(a, b.drop_last(), mixin);
        assert((a + b).drop_last() =~= a + b.drop_last());
        assert((a + b).last() == b.last());
        let tail = match b.last() {
            SourceItem::Use(u) => hosts_in_use(u, mixin),
            _ => Seq::empty(),
        };
        assert(hosts_in_items(a, mixin) + hosts_in_items(b.drop_last(), mixin) + tail
            =~= hosts_in_items(a, mixin) + (hosts_in_items(b.drop_last(), mixin) + tail));
    }
}

// ---------------------------------------------------------------------
// The classes of a module in the report
// ---------------------------------------------------------------------

/// Every mixin instance of a module is reported, in order.
pub proof fn law_instances_text_concat(a: Seq<ClassView>, b: Seq<ClassView>)
    ensures
        instances_text(a + b) == instances_text(a) + instances_text(b),
    decreases b.len(),
{
    if b.len() == 0 {
        assert(a + b =~= a);
        assert(instances_text(a) + instances_text(b) =~= instances_text(a));
    } else {
        law_instances_text_concat(a, b.drop_last());
        assert((a + b).drop_last() =~= a + b.drop_last());
        assert((a + b).last() == b.last());
        let t = if b.last().class_type == ClassType::Composite {
            instance_text(b.last())
        } else {
            Seq::empty()
        };
        assert(instances_text(a) + instances_text(b.drop_last()) + t =~= instances_text(a) + (
        instances_text(b.drop_last()) + t));
    }
}

/// Every other class of a module is reported, in order.
pub proof fn law_classes_text_concat(a: Seq<ClassView>, b: Seq<ClassView>)
    ensures
        classes_text(a + b) == classes_text(a) + classes_text(b),
    decreases b.len(),
{
    if b.len() == 0 {
        assert(a + b =~= a);
        assert(classes_text(a) + classes_text(b) =~= classes_text(a));
    } else {
        law_classes_text_concat(a, b.drop_last());
        assert((a + b).drop_last() =~= a + b.drop_last());
        assert((a + b).last() == b.last());
        let t = if b.last().class_type != ClassType::Composite {
            class_text(b.last())
        } else {
            Seq::empty()
        };
        assert(classes_text(a) + classes_text(b.drop_last()) + t =~= classes_text(a) + (
        classes_text(b.drop_last()) + t));
    }
}

// ---------------------------------------------------------------------
// What is found among the items of a module
// ---------------------------------------------------------------------

/// Every module of a file is walked, in document order: the modules
/// reported for the items `a` followed by `b` are those of `a` followed by
/// those of `b`.
pub proof fn law_modules_concat(a: Seq<SourceItem>, b: Seq<SourceItem>, path: Seq<char>)
    ensures
        modules_in(a + b, path) == modules_in(a, path) + modules_in(b, path),
    decreases b.len(),
{
    if b.len() == 0 {
        assert(a + b =~= a);
        assert(modules_in(a, path) + modules_in(b, path) =~= modules_in(a, path));
    } else {
        let init = b.subrange(0, b.len() - 1);
        law_modules_concat(a, init, path);
        let ab = a + b;
        assert(ab.subrange(0, ab.len() - 1) =~= a + init);
        assert(ab[ab.len() - 1] == b[b.len() - 1]);
        let t = modules_of(b[b.len() - 1], path);
        assert(modules_in(a, path) + modules_in(init, path) + t =~= modules_in(a, path) + (
        modules_in(init, path) + t));
    }
}

/// Every class module of a `_classes` module is read, in order.
pub proof fn law_classes_concat(a: Seq<SourceItem>, b: Seq<SourceItem>)
    ensures
        classes_in(a + b) == classes_in(a) + classes_in(b),
    decreases b.len(),
{
    if b.len() == 0 {
        assert(a + b =~= a);
        assert(classes_in(a) + classes_in(b) =~= classes_in(a));
    } else {
        law_classes_concat(a, b.drop_last());
        assert((a + b).drop_last() =~= a + b.drop_last());
        assert((a + b).last() == b.last());
        let t = match b.last() {
            SourceItem::Module(m) => if is_class_module(m) {
                entry_classes(m)
            } else {
                Seq::empty()
            },
            _ => Seq::empty(),
        };
        assert(classes_in(a) + classes_in(b.drop_last()) + t =~= classes_in(a) + (classes_in(
            b.drop_last(),
        ) + t));
    }
}

/// Every mixin module of a `_classes` module is read, in order.
pub proof fn law_mixins_concat(a: Seq<SourceItem>, b: Seq<SourceItem>, parent: ModuleNode)
    ensures
        mixins_in(a + b, parent) == mixins_in(a, parent) + mixins_in(b, parent),
    decreases b.len(),
{
    if b.len() == 0 {
        assert(a + b =~= a);
        assert(mixins_in(a, parent) + mixins_in(b, parent) =~= mixins_in(a, parent));
    } else {
        law_mixins_concat(a, b.drop_last(), parent);
        assert((a + b).drop_last() =~= a + b.drop_last());
        assert((a + b).last() == b.last());
        let t = match b.last() {
            SourceItem::Module(m) => if is_class_module(m) {
                entry_mixins(m, parent)
            } else {
                Seq::empty()
            },
            _ => Seq::empty(),
        };
        assert(mixins_in(a, parent) + mixins_in(b.drop_last(), parent) + t =~= mixins_in(
            a,
            parent,
        ) + (mixins_in(b.drop_last(), parent) + t));
    }
}

/// Every submodule of a mixin module is examined, in order, for mixin
/// instances.
pub proof fn law_instances_concat(a: Seq<SourceItem>, b: Seq<SourceItem>, mixin: Seq<char>)
    ensures
        instances_in(a + b, mixin) == instances_in(a, mixin) + instances_in(b, mixin),
    decreases b.len(),
{
    if b.len() == 0 {
        assert(a + b =~= a);
        assert(instances_in(a, mixin) + instances_in(b, mixin) =~= instances_in(a, mixin));
    } else {
        law_instances_concat(a, b.drop_last(), mixin);
        assert((a + b).drop_last() =~= a + b.drop_last());
        assert((a + b).last() == b.last());
        let t = match b.last() {
            SourceItem::Module(sub) => if is_instance_module(sub, mixin) {
                seq![instance_view(sub)]
            } else {
                Seq::empty()
            },
            _ => Seq::empty(),
        };
        assert(instances_in(a, mixin) + instances_in(b.drop_last(), mixin) + t =~= instances_in(
            a,
            mixin,
        ) + (instances_in(b.drop_last(), mixin) + t));
    }
}

} // verus!
