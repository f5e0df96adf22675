//! The collectors' own logic: the metrics each one builds, and the list of
//! categories a set of collectors covers.

pub mod linux_only;
pub mod system_info;
pub mod reading_keys;
pub mod windows_only;

use vstd::prelude::*;

use crate::normalizer::{category_id, models, Category, Metric, MetricModel};

verus! {

/// Position of a category when ordered by its identifier
/// (`bios`, `cpu`, `gpu`, `machine`, `memory`, `network`, `os`, `power`,
/// `sensors`, `storage`).
pub open spec fn category_rank(c: Category) -> nat {
    match c {
        Category::Bios => 0,
        Category::Cpu => 1,
        Category::Gpu => 2,
        Category::Machine => 3,
        Category::Memory => 4,
        Category::Network => 5,
        Category::Os => 6,
        Category::Power => 7,
        Category::Sensors => 8,
        Category::Storage => 9,
    }
}

/// The categories in the order of their identifiers.
pub open spec fn categories_by_id() -> Seq<Category> {
    seq![
        Category::Bios,
        Category::Cpu,
        Category::Gpu,
        Category::Machine,
        Category::Memory,
        Category::Network,
        Category::Os,
        Category::Power,
        Category::Sensors,
        Category::Storage,
    ]
}

fn contains_category(cats: &Vec<Category>, c: Category) -> (r: bool)
    ensures
        r == cats@.contains(c),
{
    let n = cats.len();
    let mut i: usize = 0;
    while i < n
        invariant
            n == cats@.len(),
            0 <= i <= n,
            forall|j: int| 0 <= j < i ==> cats@[j] != c,
        decreases n - i,
    {
        if cats[i] == c {
            return true;
        }
        i = i + 1;
    }
    false
}

/// The distinct categories of `cats`, ordered by identifier (what sorting
/// by `as_str` and removing repeats gives).
pub fn sorted_unique_categories(cats: &Vec<Category>) -> (r: Vec<Category>)
    ensures
        forall|i: int, j: int|
            0 <= i < j < r@.len() ==> category_rank(#[trigger] r@[i]) < category_rank(#[trigger] r@[j]),
        forall|i: int, j: int|
            0 <= i < j < r@.len() ==> lex_less(category_id(#[trigger] r@[i]), category_id(#[trigger] r@[j])),
        forall|c: Category| r@.contains(c) <==> cats@.contains(c),
{
    let order: Vec<Category> = vec![
        Category::Bios,
        Category::Cpu,
        Category::Gpu,
        Category::Machine,
        Category::Memory,
        Category::Network,
        Category::Os,
        Category::Power,
        Category::Sensors,
        Category::Storage,
    ];
    assert(order@ =~= categories_by_id());
    let mut r: Vec<Category> = Vec::new();
    let mut k: usize = 0;
    while k < 10
        invariant
            order@ == categories_by_id(),
            0 <= k <= 10,
            forall|i: int| 0 <= i < r@.len() ==> category_rank(#[trigger] r@[i]) < k,
            forall|i: int, j: int|
                0 <= i < j < r@.len() ==> category_rank(#[trigger] r@[i]) < category_rank(#[trigger] r@[j]),
            forall|c: Category| r@.contains(c) <==> (cats@.contains(c) && category_rank(c) < k),
        decreases 10 - k,
    {
        let c = order[k];
        assert(category_rank(c) == k);
        if contains_category(cats, c) {
            let ghost before = r@;
            r.push(c);
            proof {
                assert forall|d: Category| r@.contains(d) <==> (cats@.contains(d) && category_rank(d) < k + 1) by {
                    if r@.contains(d) {
                        let i = choose|i: int| 0 <= i < r@.len() && r@[i] == d;
                        if i < before.len() {
                            assert(before.contains(d));
                        }
                    }
                    if cats@.contains(d) && category_rank(d) < k + 1 {
                        if category_rank(d) < k {
                            assert(before.contains(d));
                            let i = choose|i: int| 0 <= i < before.len() && before[i] == d;
                            assert(r@[i] == d);
                        } else {
                            assert(d == c);
                            assert(r@[r@.len() - 1] == d);
                        }
                    }
                }
            }
        } else {
            proof {
                assert forall|d: Category| r@.contains(d) <==> (cats@.contains(d) && category_rank(d) < k + 1) by {
                    if category_rank(d) == k {
                        assert(d == c);
                    }
                }
            }
        }
        k = k + 1;
    }
    proof {
        assert forall|i: int, j: int| 0 <= i < j < r@.len() implies lex_less(
            category_id(#[trigger] r@[i]),
            category_id(#[trigger] r@[j]),
        ) by {
            law_rank_is_id_order(r@[i], r@[j]);
        }
    }
    r
}

/// Lexicographic order of strings (by Unicode scalar value), as `str`
/// compares.
pub open spec fn lex_less(a: Seq<char>, b: Seq<char>) -> bool
    decreases a.len(),
{
    if a.len() == 0 {
        b.len() > 0
    } else if b.len() == 0 {
        false
    } else if a[0] != b[0] {
        (a[0] as u32) < (b[0] as u32)
    } else {
        lex_less(a.skip(1), b.skip(1))
    }
}

proof fn lemma_lex_transitive(a: Seq<char>, b: Seq<char>, c: Seq<char>)
    requires
        lex_less(a, b),
        lex_less(b, c),
    ensures
        lex_less(a, c),
    decreases a.len(),
{
    if a.len() > 0 && b.len() > 0 && c.len() > 0 && a[0] == b[0] && b[0] == c[0] {
        lemma_lex_transitive(a.skip(1), b.skip(1), c.skip(1));
    }
}

proof fn lemma_lex_asymmetric(a: Seq<char>, b: Seq<char>)
    requires
        lex_less(a, b),
    ensures
        !lex_less(b, a),
    decreases a.len(),
{
    if a.len() > 0 && b.len() > 0 && a[0] == b[0] {
        lemma_lex_asymmetric(a.skip(1), b.skip(1));
    }
}

proof fn lemma_lex_irreflexive(a: Seq<char>)
    ensures
        !lex_less(a, a),
    decreases a.len(),
{
    if a.len() > 0 {
        lemma_lex_irreflexive(a.skip(1));
    }
}

proof fn lemma_consecutive_ids(i: int)
    requires
        0 <= i < 9,
    ensures
        lex_less(category_id(categories_by_id()[i]), category_id(categories_by_id()[i + 1])),
{
    reveal_strlit("bios");
    reveal_strlit("cpu");
    reveal_strlit("gpu");
    reveal_strlit("machine");
    reveal_strlit("memory");
    reveal_strlit("network");
    reveal_strlit("os");
    reveal_strlit("power");
    reveal_strlit("sensors");
    reveal_strlit("storage");
    reveal_with_fuel(lex_less, 3);
    if i == 0 {
        assert("bios"@[0] == 'b' && "cpu"@[0] == 'c');
    } else if i == 1 {
        assert("cpu"@[0] == 'c' && "gpu"@[0] == 'g');
    } else if i == 2 {
        assert("gpu"@[0] == 'g' && "machine"@[0] == 'm');
    } else if i == 3 {
        assert("machine"@.skip(1)[0] == 'a' && "memory"@.skip(1)[0] == 'e');
    } else if i == 4 {
        assert("memory"@[0] == 'm' && "network"@[0] == 'n');
    } else if i == 5 {
        assert("network"@[0] == 'n' && "os"@[0] == 'o');
    } else if i == 6 {
        assert("os"@[0] == 'o' && "power"@[0] == 'p');
    } else if i == 7 {
        assert("power"@[0] == 'p' && "sensors"@[0] == 's');
    } else {
        assert("sensors"@.skip(1)[0] == 'e' && "storage"@.skip(1)[0] == 't');
    }
}

proof fn lemma_ids_increase(i: int, j: int)
    requires
        0 <= i < j < 10,
    ensures
        lex_less(category_id(categories_by_id()[i]), category_id(categories_by_id()[j])),
    decreases j,
{
    lemma_consecutive_ids(j - 1);
    if i < j - 1 {
        lemma_ids_increase(i, j - 1);
        lemma_lex_transitive(
            category_id(categories_by_id()[i]),
            category_id(categories_by_id()[j - 1]),
            category_id(categories_by_id()[j]),
        );
    }
}

/// Ordering categories by rank is ordering them by identifier, which is
/// how `sorted_unique_categories` orders its result.
pub proof fn law_rank_is_id_order(c: Category, d: Category)
    ensures
        category_rank(c) < category_rank(d) <==> lex_less(category_id(c), category_id(d)),
{
    assert(categories_by_id()[category_rank(c) as int] == c);
    assert(categories_by_id()[category_rank(d) as int] == d);
    if category_rank(c) < category_rank(d) {
        lemma_ids_increase(category_rank(c) as int, category_rank(d) as int);
    } else if category_rank(d) < category_rank(c) {
        lemma_ids_increase(category_rank(d) as int, category_rank(c) as int);
        lemma_lex_asymmetric(category_id(d), category_id(c));
    } else {
        assert(c == d);
        lemma_lex_irreflexive(category_id(c));
    }
}

/// The collectors a host runs.
#[derive(Debug, Clone, Copy, PartialEq, Eq, Structural)]
pub enum CollectorKind {
    SystemInfo,
    WindowsWmi,
    LinuxShell,
}

/// The cross-platform collector always; the Windows one on Windows; the
/// Linux one on Linux.
pub open spec fn host_kinds(windows: bool, linux: bool) -> Seq<CollectorKind> {
    seq![CollectorKind::SystemInfo] + (if windows {
        seq![CollectorKind::WindowsWmi]
    } else {
        seq![]
    }) + (if linux {
        seq![CollectorKind::LinuxShell]
    } else {
        seq![]
    })
}

/// The collectors to register on a host, in order.
pub fn collector_kinds_for_host(windows: bool, linux: bool) -> (ks: Vec<CollectorKind>)
    ensures
        ks@ == host_kinds(windows, linux),
{
    let mut ks = vec![CollectorKind::SystemInfo];
    if windows {
        ks.push(CollectorKind::WindowsWmi);
    }
    if linux {
        ks.push(CollectorKind::LinuxShell);
    }
    proof {
        assert(ks@ =~= host_kinds(windows, linux));
    }
    ks
}

/// The metrics of several collectors, one collector after the other.
pub open spec fn concat_models(groups: Seq<Vec<Metric>>) -> Seq<MetricModel>
    decreases groups.len(),
{
    if groups.len() == 0 {
        seq![]
    } else {
        concat_models(groups.drop_last()) + models(groups.last()@)
    }
}

/// Joins the metrics of every collector, in the collectors' order.
pub fn concat_metrics(groups: Vec<Vec<Metric>>) -> (ms: Vec<Metric>)
    ensures
        models(ms@) == concat_models(groups@),
{
    let ghost all = groups@;
    let mut out: Vec<Metric> = Vec::new();
    proof {
        assert(models(out@) =~= concat_models(all.take(0)));
    }
    for g in it: groups.into_iter()
        invariant
            it.seq() == all,
            models(out@) == concat_models(all.take(it.index() as int)),
    {
        let mut g = g;
        let ghost before = out@;
        let ghost gv = g@;
        out.append(&mut g);
        proof {
            let t = all.take(it.index() + 1);
            assert(t.drop_last() =~= all.take(it.index() as int));
            assert(t.last()@ == gv);
            assert(out@ =~= before + gv);
            assert(models(out@) =~= models(before) + models(gv));
        }
    }
    proof {
        assert(all.take(all.len() as int) =~= all);
    }
    out
}

} // verus!
