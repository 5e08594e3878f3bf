//! The text report of the inheritance tree, and the totals printed after it.
use vstd::prelude::*;

use crate::info::{
    module_views, ClassInfo, ClassType, ClassView, MixinInfo, MixinView, ModuleInfo,
    ModuleView,
};
use crate::text::{join, join_strings};

verus! {

/// `  Extends: P` and a newline, when there is a superclass.
pub open spec fn extends_line(extends: Option<Seq<char>>) -> Seq<char> {
    match extends {
        Some(p) => "  Extends: "@ + p + "\n"@,
        None => Seq::empty(),
    }
}

/// The lines that report a mixin, then an empty line.
pub open spec fn mixin_text(m: MixinView) -> Seq<char> {
    "Mixin: "@ + m.name + "\n"@ + "  HostClasses: ["@ + join(m.host_classes, ", "@) + "]\n"@
        + "\n"@
}

/// The lines that report a mixin instance, then an empty line.
pub open spec fn instance_text(c: ClassView) -> Seq<char> {
    "Mixin Instance: "@ + c.name + "\n"@ + extends_line(c.extends) + "  Implements: ["@ + join(
        c.implements,
        ", "@,
    ) + "]\n"@ + "\n"@
}

/// The lines that report a class that is not a mixin instance, then an
/// empty line.
pub open spec fn class_text(c: ClassView) -> Seq<char> {
    "Class: "@ + c.name + "\n"@ + extends_line(c.extends) + "  Implements: ["@ + join(
        c.implements,
        ", "@,
    ) + "]\n"@ + "  With: ["@ + join(c.with, ", "@) + "]\n"@ + "\n"@
}

pub open spec fn mixins_text(ms: Seq<MixinView>) -> Seq<char>
    decreases ms.len(),
{
    if ms.len() == 0 {
        Seq::empty()
    } else {
        mixins_text(ms.drop_last()) + mixin_text(ms.last())
    }
}

/// The reports of the mixin instances among `cs`, in order.
pub open spec fn instances_text(cs: Seq<ClassView>) -> Seq<char>
    decreases cs.len(),
{
    if cs.len() == 0 {
        Seq::empty()
    } else {
        instances_text(cs.drop_last()) + if cs.last().class_type == ClassType::Composite {
            instance_text(cs.last())
        } else {
            Seq::empty()
        }
    }
}

/// The reports of the other classes among `cs`, in order.
pub open spec fn classes_text(cs: Seq<ClassView>) -> Seq<char>
    decreases cs.len(),
{
    if cs.len() == 0 {
        Seq::empty()
    } else {
        classes_text(cs.drop_last()) + if cs.last().class_type != ClassType::Composite {
            class_text(cs.last())
        } else {
            Seq::empty()
        }
    }
}

/// The report of one module: a header, its mixins, its mixin instances,
/// its other classes, and an empty line.
pub open spec fn module_text(m: ModuleView) -> Seq<char> {
    "=== Module: "@ + m.name + " ===\n\n"@ + mixins_text(m.mixins) + instances_text(m.classes)
        + classes_text(m.classes) + "\n"@
}

/// The report of all modules, in order.
pub open spec fn tree_text(ms: Seq<ModuleView>) -> Seq<char>
    decreases ms.len(),
{
    if ms.len() == 0 {
        Seq::empty()
    } else {
        tree_text(ms.drop_last()) + module_text(ms.last())
    }
}

fn append_extends(output: &mut String, extends: &Option<String>)
    ensures
        final(output)@ == old(output)@ + extends_line(crate::info::option_view(*extends)),
{
    match extends {
        Some(parent) => {
            output.append("  Extends: ");
            output.append(parent.as_str());
            output.append("\n");
        },
        None => {
            assert(output@ =~= output@ + Seq::<char>::empty());
        },
    }
}

fn append_mixin(output: &mut String, mixin: &MixinInfo)
    ensures
        final(output)@ == old(output)@ + mixin_text(mixin@),
{
    output.append("Mixin: ");
    output.append(mixin.name.as_str());
    output.append("\n");
    output.append("  HostClasses: [");
    let hosts = join_strings(&mixin.host_classes, ", ");
    output.append(hosts.as_str());
    output.append("]\n");
    output.append("\n");
    assert(output@ =~= old(output)@ + mixin_text(mixin@));
}

fn append_instance(output: &mut String, class: &ClassInfo)
    ensures
        final(output)@ == old(output)@ + instance_text(class@),
{
    output.append("Mixin Instance: ");
    output.append(class.name.as_str());
    output.append("\n");
    append_extends(output, &class.extends);
    output.append("  Implements: [");
    let implements = join_strings(&class.implements, ", ");
    output.append(implements.as_str());
    output.append("]\n");
    output.append("\n");
    assert(output@ =~= old(output)@ + instance_text(class@));
}

fn append_class(output: &mut String, class: &ClassInfo)
    ensures
        final(output)@ == old(output)@ + class_text(class@),
{
    output.append("Class: ");
    output.append(class.name.as_str());
    output.append("\n");
    append_extends(output, &class.extends);
    output.append("  Implements: [");
    let implements = join_strings(&class.implements, ", ");
    output.append(implements.as_str());
    output.append("]\n");
    output.append("  With: [");
    let with = join_strings(&class.with, ", ");
    output.append(with.as_str());
    output.append("]\n");
    output.append("\n");
    assert(output@ =~= old(output)@ + class_text(class@));
}

fn append_module(output: &mut String, module: &ModuleInfo)
    ensures
        final(output)@ == old(output)@ + module_text(module@),
{
    let ghost start = output@;
    let ghost m = module@;
    output.append("=== Module: ");
    output.append(module.name.as_str());
    output.append(" ===\n\n");
    let ghost header = output@;
    assert(header =~= start + "=== Module: "@ + m.name + " ===\n\n"@);
    let mut i: usize = 0;
    assert(m.mixins.take(0) =~= Seq::<MixinView>::empty());
    while i < module.mixins.len()
        invariant
            i <= module.mixins.len(),
            m == module@,
            output@ == header + mixins_text(m.mixins.take(i as int)),
        decreases module.mixins.len() - i,
    {
        assert(m.mixins.take(i + 1).drop_last() =~= m.mixins.take(i as int));
        append_mixin(output, &module.mixins[i]);
        i = i + 1;
        assert(output@ =~= header + mixins_text(m.mixins.take(i as int)));
    }
    assert(m.mixins.take(i as int) =~= m.mixins);
    let ghost after_mixins = output@;
    let mut j: usize = 0;
    assert(m.classes.take(0) =~= Seq::<ClassView>::empty());
    while j < module.classes.len()
        invariant
            j <= module.classes.len(),
            m == module@,
            output@ == after_mixins + instances_text(m.classes.take(j as int)),
        decreases module.classes.len() - j,
    {
        assert(m.classes.take(j + 1).drop_last() =~= m.classes.take(j as int));
        if module.classes[j].class_type == ClassType::Composite {
            append_instance(output, &module.classes[j]);
        }
        j = j + 1;
        assert(output@ =~= after_mixins + instances_text(m.classes.take(j as int)));
    }
    assert(m.classes.take(j as int) =~= m.classes);
    let ghost after_instances = output@;
    let mut k: usize = 0;
    while k < module.classes.len()
        invariant
            k <= module.classes.len(),
            m == module@,
            output@ == after_instances + classes_text(m.classes.take(k as int)),
        decreases module.classes.len() - k,
    {
        assert(m.classes.take(k + 1).drop_last() =~= m.classes.take(k as int));
        if module.classes[k].class_type != ClassType::Composite {
            append_class(output, &module.classes[k]);
        }
        k = k + 1;
        assert(output@ =~= after_instances + classes_text(m.classes.take(k as int)));
    }
    assert(m.classes.take(k as int) =~= m.classes);
    output.append("\n");
    assert(output@ =~= start + module_text(m));
}

/// The text report of `modules` (see `tree_text`): for each module a
/// header, its mixins with their host classes, its mixin instances, its
/// other classes, and an empty line.
pub fn format_inheritance_tree(modules: &[ModuleInfo]) -> (r: String)
    ensures
        r@ == tree_text(module_views(modules@)),
{
    let ghost ms = module_views(modules@);
    let mut output = String::new();
    let mut i: usize = 0;
    assert(ms.take(0) =~= Seq::<ModuleView>::empty());
    while i < modules.len()
        invariant
            i <= modules.len(),
            ms == module_views(modules@),
            output@ == tree_text(ms.take(i as int)),
        decreases modules.len() - i,
    {
        assert(ms.take(i + 1).drop_last() =~= ms.take(i as int));
        append_module(&mut output, &modules[i]);
        i = i + 1;
        assert(output@ =~= tree_text(ms.take(i as int)));
    }
    assert(ms.take(i as int) =~= ms);
    output
}

// ---------------------------------------------------------------------
// Totals
// ---------------------------------------------------------------------

/// The totals printed after the analysis.
pub struct InheritanceStats {
    pub total_modules: usize,
    /// The classes that are not mixins.
    pub total_classes: usize,
    pub total_mixins: usize,
}

/// The number of classes among `cs` that are not mixins.
pub open spec fn non_mixin_count(cs: Seq<ClassView>) -> nat
    decreases cs.len(),
{
    if cs.len() == 0 {
        0
    } else {
        non_mixin_count(cs.drop_last()) + if cs.last().class_type != ClassType::Mixin {
            1nat
        } else {
            0nat
        }
    }
}

pub open spec fn classes_total(ms: Seq<ModuleView>) -> nat
    decreases ms.len(),
{
    if ms.len() == 0 {
        0
    } else {
        classes_total(ms.drop_last()) + non_mixin_count(ms.last().classes)
    }
}

pub open spec fn mixins_total(ms: Seq<ModuleView>) -> nat
    decreases ms.len(),
{
    if ms.len() == 0 {
        0
    } else {
        mixins_total(ms.drop_last()) + ms.last().mixins.len()
    }
}

fn count_non_mixins(classes: &Vec<ClassInfo>) -> (r: usize)
    ensures
        r == non_mixin_count(crate::info::class_views(classes@)),
{
    let ghost cs = crate::info::class_views(classes@);
    let mut n: usize = 0;
    let mut i: usize = 0;
    assert(cs.take(0) =~= Seq::<ClassView>::empty());
    while i < classes.len()
        invariant
            i <= classes.len(),
            cs == crate::info::class_views(classes@),
            n == non_mixin_count(cs.take(i as int)),
            n <= i,
        decreases classes.len() - i,
    {
        assert(cs.take(i + 1).drop_last() =~= cs.take(i as int));
        if classes[i].class_type != ClassType::Mixin {
            n = n + 1;
        }
        i = i + 1;
    }
    assert(cs.take(i as int) =~= cs);
    n
}

/// The number of modules, of classes that are not mixins, and of mixins in
/// `modules`; `None` when a total exceeds `usize::MAX`.
pub fn inheritance_statistics(modules: &[ModuleInfo]) -> (r: Option<InheritanceStats>)
    ensures
        match r {
            Some(s) => {
                &&& s.total_modules == modules@.len()
                &&& s.total_classes == classes_total(module_views(modules@))
                &&& s.total_mixins == mixins_total(module_views(modules@))
            },
            None => classes_total(module_views(modules@)) > usize::MAX || mixins_total(
                module_views(modules@),
            ) > usize::MAX,
        },
{
    let ghost ms = module_views(modules@);
    let mut classes: usize = 0;
    let mut mixins: usize = 0;
    let mut i: usize = 0;
    assert(ms.take(0) =~= Seq::<ModuleView>::empty());
    while i < modules.len()
        invariant
            i <= modules.len(),
            ms == module_views(modules@),
            classes == classes_total(ms.take(i as int)),
            mixins == mixins_total(ms.take(i as int)),
        decreases modules.len() - i,
    {
        assert(ms.take(i + 1).drop_last() =~= ms.take(i as int));
        let c = count_non_mixins(&modules[i].classes);
        let m = modules[i].mixins.len();
        match classes.checked_add(c) {
            Some(total) => {
                classes = total;
            },
            None => {
                proof {
                    lemma_totals_grow(ms, i as int + 1);
                }
                return None;
            },
        }
        match mixins.checked_add(m) {
            Some(total) => {
                mixins = total;
            },
            None => {
                proof {
                    lemma_totals_grow(ms, i as int + 1);
                }
                return None;
            },
        }
        i = i + 1;
    }
    assert(ms.take(i as int) =~= ms);
    Some(InheritanceStats { total_modules: modules.len(), total_classes: classes, total_mixins: mixins })
}

/// The totals of a prefix are at most those of the whole.
pub proof fn lemma_totals_grow(ms: Seq<ModuleView>, k: int)
    requires
        0 <= k <= ms.len(),
    ensures
        classes_total(ms.take(k)) <= classes_total(ms),
        mixins_total(ms.take(k)) <= mixins_total(ms),
    decreases ms.len() - k,
{
    if k < ms.len() {
        assert(ms.take(k + 1).drop_last() =~= ms.take(k));
        lemma_totals_grow(ms, k + 1);
    } else {
        assert(ms.take(k) =~= ms);
    }
}

} // verus!
