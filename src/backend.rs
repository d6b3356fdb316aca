//! The ordered chain of extraction backends and the decisions that drive it.
use vstd::prelude::*;
use crate::text::{append_decimal, decimal, lemma_decimal_digits, lemma_decimal_injective};

verus! {

/// One way of expanding an archive.
#[derive(PartialEq, Eq, Structural, Clone, Copy, Debug)]
pub enum Backend {
    /// The host's own facility (PowerShell's `Expand-Archive`).
    NativeExpand,
    /// The `unzip` utility.
    Unzip,
    /// The `ditto` utility.
    Ditto,
    /// The `bsdtar` utility.
    Bsdtar,
    /// The archive reader built into this library.
    BuiltIn,
}

/// The kind of host the chain is chosen for.
#[derive(PartialEq, Eq, Structural, Clone, Copy, Debug)]
pub enum HostKind {
    Windows,
    MacOs,
    OtherUnix,
    Other,
}

/// The backends tried on each kind of host, in order.
pub open spec fn chain_spec(host: HostKind) -> Seq<Backend> {
    match host {
        HostKind::Windows => seq![Backend::NativeExpand, Backend::BuiltIn],
        HostKind::MacOs => seq![Backend::Unzip, Backend::Ditto, Backend::Bsdtar, Backend::BuiltIn],
        HostKind::OtherUnix => seq![Backend::Unzip, Backend::Bsdtar, Backend::BuiltIn],
        HostKind::Other => seq![Backend::BuiltIn],
    }
}

/// The backends to try on `host`, in order; the built-in reader always
/// comes last.
pub fn backend_chain(host: HostKind) -> (r: Vec<Backend>)
    ensures
        r@ == chain_spec(host),
        r@.len() >= 1,
        r@.last() == Backend::BuiltIn,
{
    let r = match host {
        HostKind::Windows => vec![Backend::NativeExpand, Backend::BuiltIn],
        HostKind::MacOs => vec![Backend::Unzip, Backend::Ditto, Backend::Bsdtar, Backend::BuiltIn],
        HostKind::OtherUnix => vec![Backend::Unzip, Backend::Bsdtar, Backend::BuiltIn],
        HostKind::Other => vec![Backend::BuiltIn],
    };
    assert(r@ =~= chain_spec(host));
    r
}

/// What follows an attempt. Its scratch directory is removed in every case.
#[derive(PartialEq, Eq, Structural, Clone, Copy, Debug)]
pub enum ChainStep {
    /// The backend expanded the archive: move its executables out, and stop.
    Drain,
    /// It failed: try the backend at this index.
    Next(usize),
    /// It failed and was the last: extraction has failed.
    Exhausted,
}

pub open spec fn step_spec(len: nat, index: nat, expanded: bool) -> ChainStep {
    if expanded {
        ChainStep::Drain
    } else if index + 1 < len {
        ChainStep::Next((index + 1) as usize)
    } else {
        ChainStep::Exhausted
    }
}

/// Decides what follows the attempt of the backend at `index`.
pub fn after_attempt(chain: &Vec<Backend>, index: usize, expanded: bool) -> (r: ChainStep)
    requires
        index < chain@.len(),
    ensures
        r == step_spec(chain@.len(), index as nat, expanded),
{
    if expanded {
        ChainStep::Drain
    } else if index < chain.len() - 1 {
        ChainStep::Next(index + 1)
    } else {
        ChainStep::Exhausted
    }
}

/// Where the chain stops when started at `index`, given which backends
/// would expand the archive: the index of the draining backend, or `None`.
pub open spec fn run_from(expanded: Seq<bool>, index: nat) -> Option<nat>
    decreases expanded.len() - index,
{
    if index >= expanded.len() {
        None
    } else {
        match step_spec(expanded.len(), index, expanded[index as int]) {
            ChainStep::Drain => Some(index),
            ChainStep::Next(j) => if j > index {
                run_from(expanded, j as nat)
            } else {
                None
            },
            ChainStep::Exhausted => None,
        }
    }
}

/// Driving the chain from its first backend drains with the first backend
/// that expands the archive, and is exhausted only when every backend fails.
pub proof fn lemma_chain_first_success(expanded: Seq<bool>, index: nat)
    requires
        index <= expanded.len(),
        expanded.len() < usize::MAX,
    ensures
        run_from(expanded, index) is None <==> forall|k: int|
            index <= k < expanded.len() ==> !#[trigger] expanded[k],
        run_from(expanded, index) matches Some(j) ==> index <= j < expanded.len() && expanded[j as int]
            && forall|k: int| index <= k < j ==> !#[trigger] expanded[k],
    decreases expanded.len() - index,
{
    if index < expanded.len() && !expanded[index as int] && index + 1 < expanded.len() {
        lemma_chain_first_success(expanded, index + 1);
    }
}

/// Name of the scratch directory of one attempt: the time stamp, then a
/// guard that tells apart attempts made within one tick.
pub fn scratch_dir_name(stamp: usize, guard: usize) -> (r: String)
    ensures
        r@ == ".hcd_extract_"@ + decimal(stamp as nat) + "_"@ + decimal(guard as nat),
{
    let mut s = String::from_str(".hcd_extract_");
    append_decimal(&mut s, stamp);
    s.append("_");
    append_decimal(&mut s, guard);
    s
}

/// Distinct stamp and guard pairs give distinct scratch directory names.
pub proof fn lemma_scratch_names_distinct(s1: nat, g1: nat, s2: nat, g2: nat)
    requires
        ".hcd_extract_"@ + decimal(s1) + "_"@ + decimal(g1) == ".hcd_extract_"@ + decimal(s2) + "_"@
            + decimal(g2),
    ensures
        s1 == s2 && g1 == g2,
{
    reveal_strlit("_");
    let p = ".hcd_extract_"@;
    let x1 = decimal(s1) + "_"@ + decimal(g1);
    let x2 = decimal(s2) + "_"@ + decimal(g2);
    assert(x1 =~= (p + x1).subrange(p.len() as int, (p + x1).len() as int));
    assert(x2 =~= (p + x2).subrange(p.len() as int, (p + x2).len() as int));
    assert(p + decimal(s1) + "_"@ + decimal(g1) =~= p + x1);
    assert(p + decimal(s2) + "_"@ + decimal(g2) =~= p + x2);
    assert(x1 == x2);
    lemma_decimal_digits(s1);
    lemma_decimal_digits(s2);
    let l1 = decimal(s1).len() as int;
    let l2 = decimal(s2).len() as int;
    if l1 < l2 {
        assert(x1[l1] == '_');
        assert(x2[l1] == decimal(s2)[l1]);
    } else if l2 < l1 {
        assert(x2[l2] == '_');
        assert(x1[l2] == decimal(s1)[l2]);
    }
    assert(decimal(s1) =~= x1.subrange(0, l1));
    assert(decimal(s2) =~= x2.subrange(0, l2));
    lemma_decimal_injective(s1, s2);
    assert(decimal(g1) =~= x1.subrange(l1 + 1, x1.len() as int));
    assert(decimal(g2) =~= x2.subrange(l2 + 1, x2.len() as int));
    lemma_decimal_injective(g1, g2);
}

} // verus!
