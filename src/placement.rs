//! Collision-safe naming of files placed into a flat destination directory.
use vstd::prelude::*;
use vstd::relations::injective_on;
use vstd::set_lib::{lemma_int_range, lemma_len_subset, lemma_map_size, set_int_range};
use crate::text::{append_decimal, decimal, lemma_decimal_injective, str_eq};

verus! {

/// Position of the last `.` in `name[0..m]` that is not the first character,
/// or `name.len()` where there is none.
pub open spec fn ext_dot(name: Seq<char>, m: int) -> int
    decreases m,
{
    if m <= 1 {
        name.len() as int
    } else if name[m - 1] == '.' {
        m - 1
    } else {
        ext_dot(name, m - 1)
    }
}

/// Where the extension of `name` starts (at its dot), or its length if it has none.
pub open spec fn ext_start(name: Seq<char>) -> int {
    ext_dot(name, name.len() as int)
}

/// `name` with `-idx` inserted before its extension: `app.exe` becomes `app-2.exe`.
pub open spec fn suffixed_name(name: Seq<char>, idx: nat) -> Seq<char> {
    let k = ext_start(name);
    name.subrange(0, k) + seq!['-'] + decimal(idx) + name.subrange(k, name.len() as int)
}

/// The names held by a list of strings.
pub open spec fn names_of(v: Seq<String>) -> Seq<Seq<char>> {
    v.map_values(|s: String| s@)
}

/// `idx` is the first suffix, counting from 1, whose name is not taken.
pub open spec fn is_first_free(existing: Seq<Seq<char>>, name: Seq<char>, idx: nat) -> bool {
    &&& idx >= 1
    &&& !existing.contains(suffixed_name(name, idx))
    &&& forall|j: nat| 1 <= j < idx ==> existing.contains(#[trigger] suffixed_name(name, j))
}

/// The name that a file called `name` gets in a directory holding `existing`,
/// and whether the file already there is removed first.
pub open spec fn placement_spec(
    existing: Seq<Seq<char>>,
    name: Seq<char>,
    force: bool,
    target: Seq<char>,
    replace: bool,
) -> bool {
    if !existing.contains(name) {
        target == name && !replace
    } else if force {
        target == name && replace
    } else {
        !replace && exists|idx: nat| is_first_free(existing, name, idx) && target == suffixed_name(name, idx)
    }
}

/// Where one file goes.
pub struct PlacementPlan {
    /// The file name to use in the destination.
    pub name: String,
    /// Whether a file of that name is there and must be removed first.
    pub replace_existing: bool,
}

proof fn lemma_ext_dot_bounds(name: Seq<char>, m: int)
    requires
        0 <= m <= name.len(),
    ensures
        0 <= ext_dot(name, m) <= name.len(),
    decreases m,
{
    if m > 1 && name[m - 1] != '.' {
        lemma_ext_dot_bounds(name, m - 1);
    }
}

/// Distinct suffixes give distinct names.
pub proof fn lemma_suffixed_injective(name: Seq<char>, a: nat, b: nat)
    requires
        suffixed_name(name, a) == suffixed_name(name, b),
    ensures
        a == b,
{
    lemma_ext_dot_bounds(name, name.len() as int);
    let k = ext_start(name);
    let sa = suffixed_name(name, a);
    let sb = suffixed_name(name, b);
    assert(sa.len() == k + 1 + decimal(a).len() + (name.len() - k));
    assert(sb.len() == k + 1 + decimal(b).len() + (name.len() - k));
    assert(sa.subrange(k + 1, k + 1 + decimal(a).len()) =~= decimal(a));
    assert(sb.subrange(k + 1, k + 1 + decimal(b).len()) =~= decimal(b));
    lemma_decimal_injective(a, b);
}

/// If the names suffixed 1 to `m` are all taken, at least `m` names are taken.
proof fn lemma_taken_suffixes_bound(existing: Seq<Seq<char>>, name: Seq<char>, m: nat)
    requires
        forall|j: nat| 1 <= j <= m ==> existing.contains(#[trigger] suffixed_name(name, j)),
    ensures
        m <= existing.len(),
{
    let x = set_int_range(1, m as int + 1);
    lemma_int_range(1, m as int + 1);
    let f = |j: int| suffixed_name(name, j as nat);
    let y = x.map(f);
    assert(injective_on(f, x)) by {
        assert forall|a: int, b: int| x.contains(a) && x.contains(b) && #[trigger] f(a) == #[trigger] f(
            b,
        ) implies a == b by {
            lemma_suffixed_injective(name, a as nat, b as nat);
        }
    }
    lemma_map_size(x, y, f);
    assert(y.subset_of(existing.to_set())) by {
        assert forall|s: Seq<char>| y.contains(s) implies existing.to_set().contains(s) by {
            let j = choose|j: int| x.contains(j) && f(j) == s;
            assert(existing.contains(suffixed_name(name, j as nat)));
        }
    }
    existing.lemma_cardinality_of_set();
    lemma_len_subset(y, existing.to_set());
}

/// Whether one of `existing` is `name`.
pub fn names_include(existing: &Vec<String>, name: &str) -> (r: bool)
    ensures
        r == names_of(existing@).contains(name@),
{
    let mut i: usize = 0;
    while i < existing.len()
        invariant
            i <= existing@.len(),
            forall|k: int| 0 <= k < i ==> (#[trigger] existing@[k])@ != name@,
        decreases existing@.len() - i,
    {
        if str_eq(existing[i].as_str(), name) {
            assert(names_of(existing@)[i as int] == name@);
            return true;
        }
        i += 1;
    }
    assert forall|k: int| 0 <= k < existing@.len() implies names_of(existing@)[k] != name@ by {
        assert(existing@[k]@ != name@);
    }
    false
}

fn ext_start_index(name: &str) -> (r: usize)
    ensures
        r as int == ext_start(name@),
        r <= name@.len(),
{
    let n = name.unicode_len();
    let mut m: usize = n;
    while m > 1
        invariant
            n == name@.len(),
            m <= n,
            ext_dot(name@, n as int) == ext_dot(name@, m as int),
        decreases m,
    {
        if name.get_char(m - 1) == '.' {
            return m - 1;
        }
        m -= 1;
    }
    n
}

/// `name` with `-idx` inserted before its extension.
pub fn suffixed(name: &str, idx: usize) -> (r: String)
    ensures
        r@ == suffixed_name(name@, idx as nat),
{
    let k = ext_start_index(name);
    let n = name.unicode_len();
    let mut s = String::from_str(name.substring_char(0, k));
    s.append("-");
    append_decimal(&mut s, idx);
    s.append(name.substring_char(k, n));
    proof {
        reveal_strlit("-");
    }
    assert(s@ =~= suffixed_name(name@, idx as nat));
    s
}

/// Decides where a file called `file_name` goes, given the names already in
/// the destination. A free name is used as it is. A taken one is replaced
/// when `force` is set; otherwise the first free `stem-N.ext`, N from 1, is used.
pub fn plan_placement(file_name: &str, existing: &Vec<String>, force: bool) -> (r: PlacementPlan)
    requires
        existing@.len() < usize::MAX,
    ensures
        placement_spec(names_of(existing@), file_name@, force, r.name@, r.replace_existing),
{
    let taken = names_include(existing, file_name);
    if !taken {
        return PlacementPlan { name: String::from_str(file_name), replace_existing: false };
    }
    if force {
        return PlacementPlan { name: String::from_str(file_name), replace_existing: true };
    }
    let ghost names = names_of(existing@);
    let mut idx: usize = 1;
    let mut candidate = suffixed(file_name, 1);
    loop
        invariant
            names == names_of(existing@),
            !force,
            names.len() == existing@.len(),
            existing@.len() < usize::MAX,
            1 <= idx <= existing@.len() + 1,
            candidate@ == suffixed_name(file_name@, idx as nat),
            names.contains(file_name@),
            forall|j: nat| 1 <= j < idx ==> names.contains(#[trigger] suffixed_name(file_name@, j)),
        decreases existing@.len() + 1 - idx,
    {
        if !names_include(existing, candidate.as_str()) {
            assert(is_first_free(names, file_name@, idx as nat) && candidate@ == suffixed_name(
                file_name@,
                idx as nat,
            ));
            return PlacementPlan { name: candidate, replace_existing: false };
        }
        proof {
            lemma_taken_suffixes_bound(names, file_name@, idx as nat);
        }
        idx += 1;
        candidate = suffixed(file_name, idx);
    }
}

/// Without `force` nothing is overwritten: a second file of the same name,
/// placed after the first, gets a suffixed name distinct from the first's.
pub proof fn lemma_no_overwrite_without_force(
    existing: Seq<Seq<char>>,
    name: Seq<char>,
    first: Seq<char>,
    first_replaces: bool,
    second: Seq<char>,
    second_replaces: bool,
)
    requires
        placement_spec(existing, name, false, first, first_replaces),
        placement_spec(existing.push(first), name, false, second, second_replaces),
    ensures
        !first_replaces && !second_replaces,
        !existing.contains(first),
        first != second,
        exists|idx: nat| idx >= 1 && second == suffixed_name(name, idx),
{
    let after = existing.push(first);
    if existing.contains(name) {
        let i = choose|i: int| 0 <= i < existing.len() && existing[i] == name;
        assert(after[i] == name);
    } else {
        assert(after[existing.len() as int] == name);
    }
    assert(after.contains(name));
    assert(after[existing.len() as int] == first);
    if existing.contains(name) {
        let idx = choose|idx: nat| is_first_free(existing, name, idx) && first == suffixed_name(name, idx);
    }
}

/// With `force` the file keeps its own name, and the one already there, if
/// any, is removed first: one file of that name remains.
pub proof fn lemma_forced_placement_keeps_name(
    existing: Seq<Seq<char>>,
    name: Seq<char>,
    target: Seq<char>,
    replace: bool,
)
    requires
        placement_spec(existing, name, true, target, replace),
    ensures
        target == name,
        replace == existing.contains(name),
        existing.to_set().insert(target) == existing.to_set().insert(name),
{
}

} // verus!
