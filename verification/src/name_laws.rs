//! Laws on the names the extractor reports: module paths and the names of
//! mixin instances.
use vstd::prelude::*;

use crate::composite::{
    angle_ident_at, composite_class_name, composite_parts, first_angle_ident,
    first_angle_ident_from, ident_run_end, is_ident_char, is_ident_start, marker_scan,
    nonempty_single, space_run_end, spaced_scan,
};
use crate::extract::{child_path, modules_in, modules_of};
use crate::source::SourceItem;
use crate::text::{
    contains, find_class_from, find_from, in_class, is_white_space, join, lemma_contains,
    lemma_find_from, occurs_at, trim, trim_end, trim_start, CharClass,
};

verus! {

// ---------------------------------------------------------------------
// Module paths
// ---------------------------------------------------------------------

/// The path reached from the top of the file through the modules named
/// `names`, one inside the other.
pub open spec fn path_through(names: Seq<Seq<char>>) -> Seq<char>
    decreases names.len(),
{
    if names.len() == 0 {
        Seq::empty()
    } else {
        child_path(path_through(names.drop_last()), names.last())
    }
}

/// A module reached through modules `a`, `b`, `c` (each with a name) is
/// reported as `a::b::c`: the names of all enclosing modules and its own,
/// top down, joined with `::`.
pub proof fn law_path_joins_all_names(names: Seq<Seq<char>>)
    requires
        forall|k: int| 0 <= k < names.len() ==> (#[trigger] names[k]).len() > 0,
    ensures
        path_through(names) == join(names, "::"@),
    decreases names.len(),
{
    if names.len() > 1 {
        let init = names.drop_last();
        assert forall|k: int| 0 <= k < init.len() implies (#[trigger] init[k]).len() > 0 by {
            assert(init[k] == names[k]);
        }
        law_path_joins_all_names(init);
        assert(names[0].len() > 0);
        lemma_join_nonempty(init);
        assert(path_through(names) == child_path(path_through(init), names.last()));
        assert(join(names, "::"@) == join(init, "::"@) + "::"@ + names.last());
    } else if names.len() == 1 {
        assert(names.drop_last() =~= Seq::<Seq<char>>::empty());
        assert(path_through(names.drop_last()) == Seq::<char>::empty());
        assert(names.last() == names[0]);
    }
}

proof fn lemma_join_nonempty(names: Seq<Seq<char>>)
    requires
        names.len() > 0,
        names[0].len() > 0,
    ensures
        join(names, "::"@).len() > 0,
    decreases names.len(),
{
    if names.len() > 1 {
        assert(names.drop_last()[0] == names[0]);
        lemma_join_nonempty(names.drop_last());
    }
}

/// `name` is `path`, then `::`, then more.
pub open spec fn extends_path(name: Seq<char>, path: Seq<char>) -> bool {
    &&& name.len() >= path.len() + 2
    &&& name.subrange(0, path.len() + 2 as int) == path + "::"@
}

proof fn lemma_extends_trans(name: Seq<char>, mid: Seq<char>, path: Seq<char>)
    requires
        extends_path(name, mid),
        extends_path(mid, path),
    ensures
        extends_path(name, path),
{
    reveal_strlit("::");
    assert(name.subrange(0, path.len() + 2 as int) =~= name.subrange(0, mid.len() + 2 as int).subrange(
        0,
        path.len() + 2 as int,
    ));
    assert(mid.subrange(0, path.len() + 2 as int) =~= (mid + "::"@).subrange(0, path.len() + 2 as int));
}

/// The path of a module inside the module at a path `path` is `path`, `::`
/// and its name: strictly longer than `path`, and begun by it.
pub proof fn law_child_path_extends(path: Seq<char>, name: Seq<char>)
    requires
        path.len() > 0,
    ensures
        extends_path(child_path(path, name), path),
        child_path(path, name).len() == path.len() + 2 + name.len(),
        child_path(path, name).subrange(path.len() + 2 as int, child_path(path, name).len() as int)
            == name,
{
    reveal_strlit("::");
    let c = child_path(path, name);
    assert(c.subrange(0, path.len() + 2 as int) =~= path + "::"@);
    assert(c.subrange(path.len() + 2 as int, c.len() as int) =~= name);
}

/// Every module reported inside the module at a path `path` is named by
/// `path`, `::` and more: the path keeps growing with each level of
/// nesting.
pub proof fn law_reported_names_extend_path(items: Seq<SourceItem>, path: Seq<char>)
    requires
        path.len() > 0,
    ensures
        forall|k: int|
            0 <= k < modules_in(items, path).len() ==> extends_path(
                #[trigger] modules_in(items, path)[k].name,
                path,
            ),
    decreases items,
{
    if items.len() > 0 {
        let init = items.subrange(0, items.len() - 1);
        law_reported_names_extend_path(init, path);
        lemma_item_names_extend_path(items[items.len() - 1], path);
        let before = modules_in(init, path);
        let last = modules_of(items[items.len() - 1], path);
        let all = modules_in(items, path);
        assert(all =~= before + last);
        assert forall|k: int| 0 <= k < all.len() implies extends_path(
            #[trigger] all[k].name,
            path,
        ) by {
            if k < before.len() {
                assert(all[k] == before[k]);
            } else {
                assert(all[k] == last[k - before.len()]);
            }
        }
    }
}

proof fn lemma_item_names_extend_path(item: SourceItem, path: Seq<char>)
    requires
        path.len() > 0,
    ensures
        forall|k: int|
            0 <= k < modules_of(item, path).len() ==> extends_path(
                #[trigger] modules_of(item, path)[k].name,
                path,
            ),
    decreases item,
{
    if let SourceItem::Module(m) = item {
        if let Some(c) = m.content {
            let new_path = child_path(path, m.name@);
            law_child_path_extends(path, m.name@);
            law_reported_names_extend_path(c@, new_path);
            let nested = modules_in(c@, new_path);
            let all = modules_of(item, path);
            assert forall|k: int| 0 <= k < all.len() implies extends_path(
                #[trigger] all[k].name,
                path,
            ) by {
                let own_len = all.len() - nested.len();
                if k >= own_len {
                    assert(all[k] == nested[k - own_len]);
                    lemma_extends_trans(all[k].name, new_path, path);
                } else {
                    assert(all[k].name == new_path);
                }
            }
        }
    }
}

// ---------------------------------------------------------------------
// The names of mixin instances
// ---------------------------------------------------------------------

/// A name made of identifier characters only.
pub open spec fn is_ident_text(s: Seq<char>) -> bool {
    &&& s.len() > 0
    &&& forall|k: int| 0 <= k < s.len() ==> is_ident_char(#[trigger] s[k])
}

/// ` as MixinWith<M>>::Instance`: one more mixin applied to a type.
pub open spec fn mixin_layer(m: Seq<char>) -> Seq<char> {
    " as MixinWith<"@ + m + ">>::Instance"@
}

pub open spec fn mixin_layers(ms: Seq<Seq<char>>) -> Seq<char>
    decreases ms.len(),
{
    if ms.len() == 0 {
        Seq::empty()
    } else {
        mixin_layer(ms[0]) + mixin_layers(ms.drop_first())
    }
}

/// The supertype of the instance of class `a` with the mixins `ms` applied
/// one after the other: `<<a as MixinWith<M1>>::Instance as
/// MixinWith<M2>>::Instance`, and so on for any number of mixins.
pub open spec fn instance_supertype(a: Seq<char>, ms: Seq<Seq<char>>) -> Seq<char> {
    Seq::new(ms.len(), |i: int| '<') + a + mixin_layers(ms)
}

/// A supertype that applies any number of mixins `M1, .., Mk` to class `A`
/// names the instance `A_M1_.._Mk`: every mixin appears, in order, with no
/// cap on their number.
pub proof fn law_instance_name_lists_every_mixin(a: Seq<char>, ms: Seq<Seq<char>>)
    requires
        is_ident_text(a),
        is_ident_start(a[0]),
        ms.len() >= 1,
        forall|k: int| 0 <= k < ms.len() ==> is_ident_text(#[trigger] ms[k]),
    ensures
        composite_class_name(instance_supertype(a, ms)) == Some(join(seq![a] + ms, "_"@)),
{
    reveal_strlit("MixinWith<");
    reveal_strlit("MixinWith");
    reveal_strlit(" as MixinWith<");
    let mk = "MixinWith<"@;
    let k = ms.len() as int;
    let s = instance_supertype(a, ms);
    let lead = Seq::new(ms.len(), |i: int| '<') + a;
    assert(s =~= lead + mixin_layers(ms));
    assert(mixin_layers(ms) == mixin_layer(ms[0]) + mixin_layers(ms.drop_first()));
    let n = lead.len() as int;
    assert(n == k + a.len());
    // the class: the identifier after the last of the opening angles
    assert forall|j: int| 0 <= j < k implies s[j] == '<' by {
        assert(s[j] == lead[j]);
    }
    assert forall|j: int| k <= j < n implies s[j] == a[j - k] by {
        assert(s[j] == lead[j]);
    }
    assert(s[n] == ' ');
    lemma_angles_skip(s, k, 0);
    assert(space_run_end(s, k) == k);
    assert(angle_ident_at(s, k - 1));
    lemma_ident_run(s, k, n);
    assert(s.subrange(k, n) =~= a);
    assert(first_angle_ident(s) == Some(a));
    // the mixins
    assert(occurs_at(s, "MixinWith"@, n + 4)) by {
        assert(s.subrange(n + 4, n + 13) =~= "MixinWith"@);
    }
    lemma_contains(s, "MixinWith"@);
    assert forall|m: int| !occurs_at(lead, mk, m) by {
        if occurs_at(lead, mk, m) {
            assert(lead.subrange(m, m + 10)[0] == mk[0]);
            assert(lead.subrange(m, m + 10)[9] == mk[9]);
            if m + 9 >= k {
                assert(is_ident_char(a[m + 9 - k]));
            }
        }
    }
    lemma_contains(lead, mk);
    lemma_scan_layers(lead, ms);
    assert(composite_parts(s) =~= seq![a] + ms);
}

proof fn lemma_angles_skip(s: Seq<char>, k: int, i: int)
    requires
        0 <= i <= k - 1,
        k < s.len(),
        forall|j: int| 0 <= j < k ==> s[j] == '<',
    ensures
        first_angle_ident_from(s, i) == first_angle_ident_from(s, k - 1),
    decreases k - 1 - i,
{
    if i < k - 1 {
        assert(s[i + 1] == '<');
        assert(space_run_end(s, i + 1) == i + 1);
        assert(!angle_ident_at(s, i));
        lemma_angles_skip(s, k, i + 1);
    }
}

proof fn lemma_ident_run(s: Seq<char>, i: int, j: int)
    requires
        0 <= i <= j < s.len(),
        forall|m: int| i <= m < j ==> is_ident_char(#[trigger] s[m]),
        !is_ident_char(s[j]),
    ensures
        ident_run_end(s, i) == j,
    decreases j - i,
{
    if i < j {
        lemma_ident_run(s, i + 1, j);
    }
}

proof fn lemma_find_class_at(s: Seq<char>, c: CharClass, i: int, j: int)
    requires
        0 <= i <= j < s.len(),
        forall|m: int| i <= m < j ==> !in_class(c, #[trigger] s[m]),
        in_class(c, s[j]),
    ensures
        find_class_from(s, c, i) == Some(j),
    decreases j - i,
{
    if i < j {
        lemma_find_class_at(s, c, i + 1, j);
    }
}

proof fn lemma_find_first(s: Seq<char>, pat: Seq<char>, i: int, q: int)
    requires
        0 <= i <= q,
        occurs_at(s, pat, q),
        forall|m: int| i <= m < q ==> !occurs_at(s, pat, m),
    ensures
        find_from(s, pat, i) == Some(q),
    decreases q - i,
{
    if i < q {
        lemma_find_first(s, pat, i + 1, q);
    }
}

proof fn lemma_trim_ident(m: Seq<char>)
    requires
        is_ident_text(m),
    ensures
        trim(m) == m,
{
    assert(!is_white_space(m[0]));
    assert(trim_start(m) == m);
    assert(!is_white_space(m[m.len() - 1]));
    assert(trim_end(m) == m);
}

proof fn lemma_no_marker_after_instance()
    ensures
        !contains(">>::Instance"@, "MixinWith<"@),
{
    reveal_strlit(">>::Instance");
    reveal_strlit("MixinWith<");
    let t = ">>::Instance"@;
    let mk = "MixinWith<"@;
    assert forall|m: int| !occurs_at(t, mk, m) by {
        if occurs_at(t, mk, m) {
            assert(t.subrange(m, m + 10)[0] == mk[0]);
            assert(m == 0 || m == 1 || m == 2);
        }
    }
    lemma_contains(t, mk);
}

/// Behind a text without a `MixinWith<` marker, the scan for mixin names
/// finds each mixin of the layers, in order.
proof fn lemma_scan_layers(p: Seq<char>, ms: Seq<Seq<char>>)
    requires
        !contains(p, "MixinWith<"@),
        forall|k: int| 0 <= k < ms.len() ==> is_ident_text(#[trigger] ms[k]),
    ensures
        marker_scan(p + mixin_layers(ms), "MixinWith<"@) == ms,
    decreases ms.len(),
{
    reveal_strlit("MixinWith<");
    reveal_strlit(" as MixinWith<");
    reveal_strlit(">>::Instance");
    let mk = "MixinWith<"@;
    if ms.len() == 0 {
        assert(p + mixin_layers(ms) =~= p);
    } else {
        let m0 = ms[0];
        let tail = ms.drop_first();
        let lit1 = " as MixinWith<"@;
        let lit2 = ">>::Instance"@;
        let s = p + mixin_layers(ms);
        assert(s =~= p + lit1 + m0 + lit2 + mixin_layers(tail));
        let q = p.len() + 4 as int;
        assert(s.subrange(q, q + 10) =~= mk);
        lemma_find_from(p, mk, 0);
        assert forall|m: int| 0 <= m < q implies !occurs_at(s, mk, m) by {
            if occurs_at(s, mk, m) {
                if m + 10 <= p.len() {
                    assert(p.subrange(m, m + 10) =~= s.subrange(m, m + 10));
                    assert(occurs_at(p, mk, m));
                } else {
                    let j = if m <= p.len() {
                        p.len() as int
                    } else {
                        p.len() + 3 as int
                    };
                    assert(s[j] == ' ');
                    assert(s.subrange(m, m + 10)[j - m] == mk[j - m]);
                }
            }
        }
        lemma_find_first(s, mk, 0, q);
        let rest = s.subrange(q + 10, s.len() as int);
        assert(rest =~= m0 + lit2 + mixin_layers(tail));
        assert(rest[m0.len() as int] == '>');
        assert forall|m: int| 0 <= m < m0.len() implies !in_class(
            CharClass::NameEnd,
            #[trigger] rest[m],
        ) by {
            assert(rest[m] == m0[m]);
            assert(is_ident_char(m0[m]));
        }
        lemma_find_class_at(rest, CharClass::NameEnd, 0, m0.len() as int);
        assert(rest.subrange(0, m0.len() as int) =~= m0);
        lemma_trim_ident(m0);
        let after = rest.subrange(m0.len() as int, rest.len() as int);
        assert(after =~= lit2 + mixin_layers(tail));
        lemma_no_marker_after_instance();
        assert forall|k: int| 0 <= k < tail.len() implies is_ident_text(#[trigger] tail[k]) by {
            assert(tail[k] == ms[k + 1]);
        }
        lemma_scan_layers(lit2, tail);
        assert(marker_scan(s, mk) == nonempty_single(m0) + marker_scan(after, mk));
        assert(seq![m0] + tail =~= ms);
    }
}

// ---------------------------------------------------------------------
// The same names in the token text that `quote` prints
// ---------------------------------------------------------------------

/// ` as MixinWith < M > > :: Instance`: one more mixin, as token text.
pub open spec fn spaced_layer(m: Seq<char>) -> Seq<char> {
    " as MixinWith < "@ + m + " > > :: Instance"@
}

pub open spec fn spaced_layers(ms: Seq<Seq<char>>) -> Seq<char>
    decreases ms.len(),
{
    if ms.len() == 0 {
        Seq::empty()
    } else {
        spaced_layer(ms[0]) + spaced_layers(ms.drop_first())
    }
}

/// `< ` once for each mixin.
pub open spec fn spaced_angles(k: nat) -> Seq<char> {
    Seq::new(2 * k, |i: int| if i % 2 == 0 { '<' } else { ' ' })
}

/// The token text of the supertype of the instance of class `a` with the
/// mixins `ms`: `< < a as MixinWith < M1 > > :: Instance as MixinWith < M2 >
/// > :: Instance`, and so on for any number of mixins.
pub open spec fn spaced_instance_supertype(a: Seq<char>, ms: Seq<Seq<char>>) -> Seq<char> {
    spaced_angles(ms.len()) + a + spaced_layers(ms)
}

/// In the token text too, a supertype that applies any number of mixins
/// `M1, .., Mk` to class `A` names the instance `A_M1_.._Mk`: every mixin
/// appears, in order, with no cap on their number.
pub proof fn law_spaced_instance_name_lists_every_mixin(a: Seq<char>, ms: Seq<Seq<char>>)
    requires
        is_ident_text(a),
        is_ident_start(a[0]),
        ms.len() >= 1,
        forall|k: int| 0 <= k < ms.len() ==> is_ident_text(#[trigger] ms[k]),
    ensures
        composite_class_name(spaced_instance_supertype(a, ms)) == Some(
            join(seq![a] + ms, "_"@),
        ),
{
    reveal_strlit("MixinWith<");
    reveal_strlit("MixinWith <");
    reveal_strlit("MixinWith");
    reveal_strlit(" as MixinWith < ");
    let k = ms.len() as int;
    let lead = spaced_angles(ms.len()) + a;
    let s = spaced_instance_supertype(a, ms);
    assert(s =~= lead + spaced_layers(ms));
    assert(spaced_layers(ms) == spaced_layer(ms[0]) + spaced_layers(ms.drop_first()));
    let n = lead.len() as int;
    assert(n == 2 * k + a.len());
    // the class
    assert forall|j: int| 0 <= j < 2 * k implies s[j] == (if j % 2 == 0 {
        '<'
    } else {
        ' '
    }) by {
        assert(s[j] == lead[j]);
    }
    assert forall|j: int| 2 * k <= j < n implies s[j] == a[j - 2 * k] by {
        assert(s[j] == lead[j]);
    }
    assert(s[n] == ' ');
    lemma_spaced_angles_skip(s, k, 0);
    assert(s[2 * k - 1] == ' ');
    assert(space_run_end(s, 2 * k) == 2 * k);
    assert(space_run_end(s, 2 * k - 1) == 2 * k);
    assert(angle_ident_at(s, 2 * k - 2));
    lemma_ident_run(s, 2 * k, n);
    assert(s.subrange(2 * k, n) =~= a);
    assert(first_angle_ident(s) == Some(a));
    // no tight marker, so the spaced one is read
    assert(occurs_at(s, "MixinWith"@, n + 4)) by {
        assert(s.subrange(n + 4, n + 13) =~= "MixinWith"@);
    }
    lemma_contains(s, "MixinWith"@);
    lemma_lead_angles(a, k);
    lemma_layers_angles(ms);
    lemma_angles_concat(lead, spaced_layers(ms));
    assert forall|m: int| !occurs_at(s, "MixinWith<"@, m) by {
        if occurs_at(s, "MixinWith<"@, m) {
            assert(s.subrange(m, m + 10)[9] == "MixinWith<"@[9]);
            assert(s.subrange(m, m + 10)[8] == "MixinWith<"@[8]);
        }
    }
    lemma_contains(s, "MixinWith<"@);
    assert(marker_scan(s, "MixinWith<"@) =~= Seq::<Seq<char>>::empty());
    // the mixins
    let mk = "MixinWith <"@;
    assert forall|m: int| !occurs_at(lead, mk, m) by {
        if occurs_at(lead, mk, m) {
            assert(lead.subrange(m, m + 11)[0] == mk[0]);
            assert(lead.subrange(m, m + 11)[10] == mk[10]);
            if m + 10 >= 2 * k {
                assert(is_ident_char(a[m + 10 - 2 * k]));
            }
        }
    }
    lemma_contains(lead, mk);
    lemma_spaced_scan_layers(lead, ms);
    assert(composite_parts(s) =~= seq![a] + ms);
}

proof fn lemma_spaced_angles_skip(s: Seq<char>, k: int, i: int)
    requires
        0 <= i <= 2 * k - 2,
        i % 2 == 0,
        2 * k < s.len(),
        forall|j: int| 0 <= j < 2 * k ==> s[j] == (if j % 2 == 0 {
            '<'
        } else {
            ' '
        }),
    ensures
        first_angle_ident_from(s, i) == first_angle_ident_from(s, 2 * k - 2),
    decreases 2 * k - 2 - i,
{
    if i < 2 * k - 2 {
        assert(s[i + 1] == ' ');
        assert(s[i + 2] == '<');
        assert(space_run_end(s, i + 2) == i + 2);
        assert(space_run_end(s, i + 1) == i + 2);
        assert(!angle_ident_at(s, i));
        assert(s[i + 1] != '<');
        assert(!angle_ident_at(s, i + 1));
        assert(first_angle_ident_from(s, i) == first_angle_ident_from(s, i + 1));
        assert(first_angle_ident_from(s, i + 1) == first_angle_ident_from(s, i + 2));
        lemma_spaced_angles_skip(s, k, i + 2);
    }
}

/// Every `<` after the first character comes right after a space.
pub open spec fn angles_after_spaces(t: Seq<char>) -> bool {
    forall|j: int| 0 < j < t.len() && #[trigger] t[j] == '<' ==> t[j - 1] == ' '
}

proof fn lemma_angles_concat(x: Seq<char>, y: Seq<char>)
    requires
        angles_after_spaces(x),
        angles_after_spaces(y),
        y.len() == 0 || y[0] != '<',
    ensures
        angles_after_spaces(x + y),
{
    let t = x + y;
    assert forall|j: int| 0 < j < t.len() && #[trigger] t[j] == '<' implies t[j - 1] == ' ' by {
        if j < x.len() {
            assert(x[j] == '<');
        } else if j > x.len() {
            assert(y[j - x.len()] == '<');
        }
    }
}

proof fn lemma_lead_angles(a: Seq<char>, k: int)
    requires
        is_ident_text(a),
        k >= 0,
    ensures
        angles_after_spaces(spaced_angles(k as nat) + a),
{
    let t = spaced_angles(k as nat) + a;
    assert forall|j: int| 0 < j < t.len() && #[trigger] t[j] == '<' implies t[j - 1] == ' ' by {
        if j >= 2 * k {
            assert(t[j] == a[j - 2 * k]);
            assert(is_ident_char(a[j - 2 * k]));
        } else {
            assert(j % 2 == 0);
        }
    }
}

proof fn lemma_layer_angles(m: Seq<char>)
    requires
        is_ident_text(m),
    ensures
        angles_after_spaces(spaced_layer(m)),
        spaced_layer(m)[0] == ' ',
{
    reveal_strlit(" as MixinWith < ");
    reveal_strlit(" > > :: Instance");
    let l1 = " as MixinWith < "@;
    let l2 = " > > :: Instance"@;
    let t = spaced_layer(m);
    assert forall|j: int| 0 < j < t.len() && #[trigger] t[j] == '<' implies t[j - 1] == ' ' by {
        if j < 16 {
            assert(t[j] == l1[j]);
            assert(j == 14);
        } else if j < 16 + m.len() {
            assert(t[j] == m[j - 16]);
            assert(is_ident_char(m[j - 16]));
        } else {
            assert(t[j] == l2[j - 16 - m.len()]);
        }
    }
}

proof fn lemma_layers_angles(ms: Seq<Seq<char>>)
    requires
        forall|k: int| 0 <= k < ms.len() ==> is_ident_text(#[trigger] ms[k]),
    ensures
        angles_after_spaces(spaced_layers(ms)),
        spaced_layers(ms).len() == 0 || spaced_layers(ms)[0] != '<',
    decreases ms.len(),
{
    if ms.len() > 0 {
        let tail = ms.drop_first();
        assert forall|k: int| 0 <= k < tail.len() implies is_ident_text(#[trigger] tail[k]) by {
            assert(tail[k] == ms[k + 1]);
        }
        lemma_layers_angles(tail);
        lemma_layer_angles(ms[0]);
        lemma_angles_concat(spaced_layer(ms[0]), spaced_layers(tail));
    }
}

proof fn lemma_no_spaced_marker_after_instance()
    ensures
        !contains(" > > :: Instance"@, "MixinWith <"@),
{
    reveal_strlit(" > > :: Instance");
    reveal_strlit("MixinWith <");
    let t = " > > :: Instance"@;
    let mk = "MixinWith <"@;
    assert forall|m: int| !occurs_at(t, mk, m) by {
        if occurs_at(t, mk, m) {
            assert(t.subrange(m, m + 11)[0] == mk[0]);
            assert(0 <= m <= 5);
            assert(t[m] != 'M');
        }
    }
    lemma_contains(t, mk);
}

/// Behind a text without a `MixinWith <` marker, the scan for mixin names
/// in token text finds each mixin of the layers, in order.
proof fn lemma_spaced_scan_layers(p: Seq<char>, ms: Seq<Seq<char>>)
    requires
        !contains(p, "MixinWith <"@),
        forall|k: int| 0 <= k < ms.len() ==> is_ident_text(#[trigger] ms[k]),
    ensures
        spaced_scan(p + spaced_layers(ms), "MixinWith <"@) == ms,
    decreases ms.len(),
{
    reveal_strlit("MixinWith <");
    reveal_strlit(" as MixinWith < ");
    reveal_strlit(" > > :: Instance");
    let mk = "MixinWith <"@;
    if ms.len() == 0 {
        assert(p + spaced_layers(ms) =~= p);
    } else {
        let m0 = ms[0];
        let tail = ms.drop_first();
        let lit1 = " as MixinWith < "@;
        let lit2 = " > > :: Instance"@;
        let s = p + spaced_layers(ms);
        assert(s =~= p + lit1 + m0 + lit2 + spaced_layers(tail));
        let q = p.len() + 4 as int;
        assert(s.subrange(q, q + 11) =~= mk);
        lemma_find_from(p, mk, 0);
        assert forall|m: int| 0 <= m < q implies !occurs_at(s, mk, m) by {
            if occurs_at(s, mk, m) {
                if m + 11 <= p.len() {
                    assert(p.subrange(m, m + 11) =~= s.subrange(m, m + 11));
                    assert(occurs_at(p, mk, m));
                } else {
                    let j = if m + 11 == p.len() + 1 {
                        p.len() as int
                    } else if m <= p.len() + 1 {
                        p.len() + 1 as int
                    } else if m == p.len() + 2 {
                        p.len() + 2 as int
                    } else {
                        m
                    };
                    assert(s[p.len() as int] == ' ');
                    assert(s[p.len() + 1 as int] == 'a');
                    assert(s[p.len() + 2 as int] == 's');
                    assert(s[p.len() + 3 as int] == ' ');
                    assert(s.subrange(m, m + 11)[j - m] == mk[j - m]);
                }
            }
        }
        lemma_find_first(s, mk, 0, q);
        let rem = s.subrange(q + 11, s.len() as int);
        assert(rem =~= seq![' '] + m0 + lit2 + spaced_layers(tail));
        assert(!in_class(CharClass::Word, rem[0]));
        assert(rem[1] == m0[0]);
        assert(is_ident_char(m0[0]));
        lemma_find_class_at(rem, CharClass::Word, 0, 1);
        let name_str = rem.subrange(1, rem.len() as int);
        assert(name_str =~= m0 + lit2 + spaced_layers(tail));
        assert(name_str[m0.len() as int] == ' ');
        assert forall|m: int| 0 <= m < m0.len() implies !in_class(
            CharClass::NonWord,
            #[trigger] name_str[m],
        ) by {
            assert(name_str[m] == m0[m]);
            assert(is_ident_char(m0[m]));
        }
        lemma_find_class_at(name_str, CharClass::NonWord, 0, m0.len() as int);
        assert(name_str.subrange(0, m0.len() as int) =~= m0);
        lemma_trim_ident(m0);
        let after = name_str.subrange(m0.len() as int, name_str.len() as int);
        assert(after =~= lit2 + spaced_layers(tail));
        lemma_no_spaced_marker_after_instance();
        assert forall|k: int| 0 <= k < tail.len() implies is_ident_text(#[trigger] tail[k]) by {
            assert(tail[k] == ms[k + 1]);
        }
        lemma_spaced_scan_layers(lit2, tail);
        assert(spaced_scan(s, mk) == nonempty_single(m0) + spaced_scan(after, mk));
        assert(seq![m0] + tail =~= ms);
    }
}

} // verus!
