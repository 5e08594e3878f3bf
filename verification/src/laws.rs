//! Properties of the extractor as a whole.
use vstd::prelude::*;

use crate::classify::{class_type_of, implemented_interface, implements_in};
use crate::extract::{
    classes_in, entry_classes, host_of, instances_in, is_class_module, modules_in, modules_of,
    with_of,
};
use crate::info::{ClassType, ClassView, ModuleView};
use crate::report::tree_text;
use crate::source::{ModuleNode, SourceItem};
use crate::text::{
    contains, find, join, lemma_contains, lemma_find_from, occurs_at, split,
    strip_leading, strip_suffix,
};

verus! {

// ---------------------------------------------------------------------
// Splitting a composite name at `_` gives back its parts
// ---------------------------------------------------------------------

proof fn lemma_join_front(parts: Seq<Seq<char>>, sep: Seq<char>)
    requires
        parts.len() >= 2,
    ensures
        join(parts, sep) == parts[0] + sep + join(parts.drop_first(), sep),
    decreases parts.len(),
{
    if parts.len() == 2 {
        assert(parts.drop_last().len() == 1);
        assert(parts.drop_first().len() == 1);
        assert(join(parts.drop_first(), sep) == parts[1]);
        assert(join(parts.drop_last(), sep) == parts[0]);
    } else {
        lemma_join_front(parts.drop_last(), sep);
        assert(parts.drop_last().drop_first() =~= parts.drop_first().drop_last());
        assert(parts.drop_first().last() == parts.last());
        assert(parts.drop_last()[0] == parts[0]);
    }
}

proof fn lemma_split_after_first(a: Seq<char>, b: Seq<char>)
    requires
        !contains(a, "_"@),
    ensures
        split(a + "_"@ + b, "_"@) == seq![a] + split(b, "_"@),
{
    reveal_strlit("_");
    let sep = "_"@;
    let s = a + sep + b;
    assert(sep.len() == 1);
    assert(occurs_at(s, sep, a.len() as int)) by {
        assert(s.subrange(a.len() as int, a.len() + 1 as int) =~= sep);
    }
    lemma_contains(a, sep);
    lemma_find_from(s, sep, 0);
    assert forall|m: int| 0 <= m < a.len() implies !occurs_at(s, sep, m) by {
        if occurs_at(s, sep, m) {
            assert(s.subrange(m, m + 1)[0] == sep[0]);
            assert(a.subrange(m, m + 1) =~= sep);
            assert(occurs_at(a, sep, m));
        }
    }
    assert(find(s, sep) == Some(a.len() as int));
    assert(s.subrange(0, a.len() as int) =~= a);
    assert(s.subrange(a.len() + 1 as int, s.len() as int) =~= b);
}

proof fn lemma_split_without_separator(a: Seq<char>)
    requires
        !contains(a, "_"@),
    ensures
        split(a, "_"@) == seq![a],
{
    reveal_strlit("_");
}

/// Splitting at `_` the parts joined with `_` gives back the parts, when no
/// part holds `_`.
pub proof fn law_split_undoes_join(parts: Seq<Seq<char>>)
    requires
        parts.len() >= 1,
        forall|k: int| 0 <= k < parts.len() ==> !contains(#[trigger] parts[k], "_"@),
    ensures
        split(join(parts, "_"@), "_"@) == parts,
    decreases parts.len(),
{
    if parts.len() == 1 {
        lemma_split_without_separator(parts[0]);
        assert(seq![parts[0]] =~= parts);
    } else {
        lemma_join_front(parts, "_"@);
        let rest = parts.drop_first();
        assert forall|k: int| 0 <= k < rest.len() implies !contains(#[trigger] rest[k], "_"@) by {
            assert(rest[k] == parts[k + 1]);
        }
        law_split_undoes_join(rest);
        assert(!contains(parts[0], "_"@));
        lemma_split_after_first(parts[0], join(rest, "_"@));
        assert(seq![parts[0]] + rest =~= parts);
    }
}

/// A class whose superclass is a composite name `A_M1_..` built from
/// parts without `_` is reported with the mixins `M1, ..` of that name.
pub proof fn law_with_lists_composite_mixins(parts: Seq<Seq<char>>)
    requires
        parts.len() >= 1,
        forall|k: int| 0 <= k < parts.len() ==> !contains(#[trigger] parts[k], "_"@),
    ensures
        with_of(Some(join(parts, "_"@))) == parts.skip(1),
{
    reveal_strlit("_");
    if parts.len() == 1 {
        assert(!contains(parts[0], "_"@));
        assert(parts.skip(1) =~= Seq::<Seq<char>>::empty());
    } else {
        lemma_join_front(parts, "_"@);
        let s = join(parts, "_"@);
        assert(occurs_at(s, "_"@, parts[0].len() as int)) by {
            assert(s.subrange(parts[0].len() as int, parts[0].len() + 1 as int) =~= "_"@);
        }
        lemma_contains(s, "_"@);
        law_split_undoes_join(parts);
        assert(parts.skip(1) =~= parts.drop_first());
    }
}

// ---------------------------------------------------------------------
// Implemented interfaces
// ---------------------------------------------------------------------

/// The list of implemented interfaces names each interface at most once.
pub proof fn law_implements_unique(items: Seq<SourceItem>)
    ensures
        implements_in(items).no_duplicates(),
    decreases items.len(),
{
    if items.len() > 0 {
        law_implements_unique(items.drop_last());
    }
}

/// The item is a `HasImpl` impl that names interface `n`.
pub open spec fn impl_names(item: SourceItem, n: Seq<char>) -> bool {
    match item {
        SourceItem::Impl(i) => implemented_interface(i) == Some(n),
        _ => false,
    }
}

/// An interface is listed exactly when some `HasImpl` impl among the items
/// names it.
pub proof fn law_implements_complete(items: Seq<SourceItem>, n: Seq<char>)
    ensures
        implements_in(items).contains(n) <==> exists|k: int|
            0 <= k < items.len() && impl_names(#[trigger] items[k], n),
    decreases items.len(),
{
    if items.len() > 0 {
        let before = items.drop_last();
        let last = items.last();
        let before_list = implements_in(before);
        let all = implements_in(items);
        law_implements_complete(before, n);
        let in_before = exists|k: int| 0 <= k < before.len() && impl_names(#[trigger] before[k], n);
        let in_items = exists|k: int| 0 <= k < items.len() && impl_names(#[trigger] items[k], n);
        assert(in_items <==> in_before || impl_names(last, n)) by {
            if in_before {
                let k = choose|k: int| 0 <= k < before.len() && impl_names(#[trigger] before[k], n);
                assert(items[k] == before[k]);
            }
            if impl_names(last, n) {
                assert(items[items.len() - 1] == last);
            }
            if in_items {
                let k = choose|k: int| 0 <= k < items.len() && impl_names(#[trigger] items[k], n);
                if k < before.len() {
                    assert(before[k] == items[k]);
                }
            }
        }
        assert(all.contains(n) <==> before_list.contains(n) || impl_names(last, n)) by {
            match last {
                SourceItem::Impl(i) => match implemented_interface(i) {
                    Some(m) => {
                        if !before_list.contains(m) {
                            assert(all == before_list.push(m));
                            assert(all[before_list.len() as int] == m);
                            if all.contains(n) {
                                let j = choose|j: int| 0 <= j < all.len() && all[j] == n;
                                if j < before_list.len() {
                                    assert(before_list[j] == n);
                                }
                            }
                            if before_list.contains(n) {
                                let j = choose|j: int| 0 <= j < before_list.len() && before_list[j] == n;
                                assert(all[j] == n);
                            }
                        }
                    },
                    None => {},
                },
                _ => {},
            }
        }
    }
}

// ---------------------------------------------------------------------
// Mixin hosts
// ---------------------------------------------------------------------

/// Importing `h_M` makes `h` a host of mixin `M`: the host is what remains
/// of the imported name without `_` and the mixin's name.
pub proof fn law_host_of_imported_name(h: Seq<char>, mixin: Seq<char>)
    ensures
        host_of(h + "_"@ + mixin, mixin) == seq![h],
{
    let suffix = "_"@ + mixin;
    let s = h + suffix;
    assert(h + "_"@ + mixin =~= s);
    assert(s.subrange(s.len() - suffix.len(), s.len() as int) =~= suffix);
    assert(s.subrange(0, s.len() - suffix.len()) =~= h);
    assert(strip_suffix(s, suffix) == Some(h));
}

/// A host is what an imported name leaves once `_` and the mixin's name are
/// taken off its end.
pub proof fn law_host_reimports(name: Seq<char>, mixin: Seq<char>, h: Seq<char>)
    requires
        host_of(name, mixin) == seq![h],
    ensures
        h + "_"@ + mixin == name,
{
    let suffix = "_"@ + mixin;
    if strip_suffix(name, suffix) is None {
        assert(host_of(name, mixin).len() == 0);
    }
    assert(strip_suffix(name, suffix) is Some);
    assert(seq![h][0] == h);
    assert(name.subrange(0, name.len() - suffix.len()) + name.subrange(
        name.len() - suffix.len(),
        name.len() as int,
    ) =~= name);
    assert(h + "_"@ + mixin =~= h + suffix);
}

// ---------------------------------------------------------------------
// Reported classes
// ---------------------------------------------------------------------

/// No leading underscore remains once leading underscores are stripped.
proof fn lemma_strip_leading(s: Seq<char>, c: char)
    ensures
        strip_leading(s, c).len() == 0 || strip_leading(s, c)[0] != c,
    decreases s.len(),
{
    if s.len() > 0 && s[0] == c {
        lemma_strip_leading(s.drop_first(), c);
    }
}

/// A reported class: never a mixin, and named without a leading `_`.
pub open spec fn reported_class_ok(c: ClassView) -> bool {
    &&& c.class_type != ClassType::Mixin
    &&& c.name.len() == 0 || c.name[0] != '_'
}

proof fn lemma_instances_ok(items: Seq<SourceItem>, mixin: Seq<char>)
    ensures
        forall|k: int| 0 <= k < instances_in(items, mixin).len() ==> reported_class_ok(
            #[trigger] instances_in(items, mixin)[k],
        ),
    decreases items.len(),
{
    if items.len() > 0 {
        lemma_instances_ok(items.drop_last(), mixin);
        let before = instances_in(items.drop_last(), mixin);
        let all = instances_in(items, mixin);
        if let SourceItem::Module(sub) = items.last() {
            lemma_strip_leading(sub.name@, '_');
        }
        assert forall|k: int| 0 <= k < all.len() implies reported_class_ok(#[trigger] all[k]) by {
            if k < before.len() {
                assert(all[k] == before[k]);
            }
        }
    }
}

proof fn lemma_entry_classes_ok(m: ModuleNode)
    ensures
        forall|k: int| 0 <= k < entry_classes(m).len() ==> reported_class_ok(
            #[trigger] entry_classes(m)[k],
        ),
{
    lemma_strip_leading(m.name@, '_');
    if class_type_of(m) == ClassType::Mixin {
        if let Some(c) = m.content {
            lemma_instances_ok(c@, strip_leading(m.name@, '_'));
        }
    }
}

/// Every class reported for a `_classes` module is not a mixin (mixins are
/// reported apart) and is named without a leading `_`.
pub proof fn law_classes_reported_ok(items: Seq<SourceItem>)
    ensures
        forall|k: int| 0 <= k < classes_in(items).len() ==> reported_class_ok(
            #[trigger] classes_in(items)[k],
        ),
    decreases items.len(),
{
    if items.len() > 0 {
        law_classes_reported_ok(items.drop_last());
        let before = classes_in(items.drop_last());
        let all = classes_in(items);
        if let SourceItem::Module(m) = items.last() {
            lemma_entry_classes_ok(m);
        }
        assert forall|k: int| 0 <= k < all.len() implies reported_class_ok(#[trigger] all[k]) by {
            if k < before.len() {
                assert(all[k] == before[k]);
            } else {
                if let SourceItem::Module(m) = items.last() {
                    if is_class_module(m) {
                        assert(all[k] == entry_classes(m)[k - before.len()]);
                    }
                }
            }
        }
    }
}

pub open spec fn module_ok(m: ModuleView) -> bool {
    forall|k: int| 0 <= k < m.classes.len() ==> reported_class_ok(#[trigger] m.classes[k])
}

/// In every module reported for a file, no class is a mixin and no class
/// name keeps a leading `_`.
pub proof fn law_modules_reported_ok(items: Seq<SourceItem>, path: Seq<char>)
    ensures
        forall|k: int| 0 <= k < modules_in(items, path).len() ==> module_ok(
            #[trigger] modules_in(items, path)[k],
        ),
    decreases items,
{
    if items.len() > 0 {
        let init = items.subrange(0, items.len() - 1);
        law_modules_reported_ok(init, path);
        lemma_module_item_ok(items[items.len() - 1], path);
        let before = modules_in(init, path);
        let last = modules_of(items[items.len() - 1], path);
        let all = modules_in(items, path);
        assert(all =~= before + last);
        assert forall|k: int| 0 <= k < all.len() implies module_ok(#[trigger] all[k]) by {
            if k < before.len() {
                assert(all[k] == before[k]);
            } else {
                assert(all[k] == last[k - before.len()]);
            }
        }
    }
}

proof fn lemma_module_item_ok(item: SourceItem, path: Seq<char>)
    ensures
        forall|k: int| 0 <= k < modules_of(item, path).len() ==> module_ok(
            #[trigger] modules_of(item, path)[k],
        ),
    decreases item,
{
    if let SourceItem::Module(m) = item {
        if let Some(c) = m.content {
            let new_path = crate::extract::child_path(path, m.name@);
            law_modules_reported_ok(c@, new_path);
            let nested = modules_in(c@, new_path);
            let all = modules_of(item, path);
            if crate::extract::has_classes_module(c@) {
                if let Some(class_items) = crate::extract::classes_items(c@) {
                    law_classes_reported_ok(class_items);
                }
            }
            assert forall|k: int| 0 <= k < all.len() implies module_ok(#[trigger] all[k]) by {
                let own_len = all.len() - nested.len();
                if k >= own_len {
                    assert(all[k] == nested[k - own_len]);
                }
            }
        }
    }
}

// ---------------------------------------------------------------------
// The report
// ---------------------------------------------------------------------

/// Reporting two lists of modules one after the other gives the report of
/// the two lists together.
pub proof fn law_report_concatenates(a: Seq<ModuleView>, b: Seq<ModuleView>)
    ensures
        tree_text(a + b) == tree_text(a) + tree_text(b),
    decreases b.len(),
{
    if b.len() == 0 {
        assert(a + b =~= a);
        assert(tree_text(a) + tree_text(b) =~= tree_text(a));
    } else {
        law_report_concatenates(a, b.drop_last());
        assert((a + b).drop_last() =~= a + b.drop_last());
        assert((a + b).last() == b.last());
    }
}

} // verus!
