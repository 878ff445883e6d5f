use vstd::prelude::*;

verus! {

/// `name` is one of the names in `listed`.
pub open spec fn is_listed(listed: Seq<String>, name: Seq<char>) -> bool {
    exists|j: int| 0 <= j < listed.len() && (#[trigger] listed[j])@ == name
}

/// Whether the module at index `i` is scanned: every module is, unless
/// `skip_listed` asks to leave out those whose name is listed in `ignored`.
pub open spec fn is_scanned(names: Seq<String>, ignored: Seq<String>, skip_listed: bool, i: int) -> bool {
    !skip_listed || !is_listed(ignored, names[i]@)
}

/// The indices below `n` of the modules that are scanned, in increasing order.
pub open spec fn scanned_indices(names: Seq<String>, ignored: Seq<String>, skip_listed: bool, n: nat) -> Seq<usize>
    decreases n,
{
    if n == 0 {
        Seq::empty()
    } else {
        let rest = scanned_indices(names, ignored, skip_listed, (n - 1) as nat);
        if is_scanned(names, ignored, skip_listed, n - 1) {
            rest.push((n - 1) as usize)
        } else {
            rest
        }
    }
}

/// Whether `name` is one of the names in `ignored`.
pub fn is_ignored_module(name: &String, ignored: &Vec<String>) -> (r: bool)
    ensures
        r == is_listed(ignored@, name@),
{
    let mut j: usize = 0;
    while j < ignored.len()
        invariant
            j <= ignored@.len(),
            forall|k: int| 0 <= k < j ==> (#[trigger] ignored@[k])@ != name@,
        decreases ignored@.len() - j,
    {
        if ignored[j] == *name {
            return true;
        }
        j = j + 1;
    }
    false
}

/// The indices of the modules to scan, in order: all of them, or, where
/// `skip_listed` is set, those whose name is not in `ignored`.
pub fn modules_to_scan(names: &Vec<String>, ignored: &Vec<String>, skip_listed: bool) -> (r: Vec<usize>)
    ensures
        r@ == scanned_indices(names@, ignored@, skip_listed, names@.len()),
{
    let mut r: Vec<usize> = Vec::new();
    let mut i: usize = 0;
    while i < names.len()
        invariant
            i <= names@.len(),
            r@ == scanned_indices(names@, ignored@, skip_listed, i as nat),
        decreases names@.len() - i,
    {
        if !skip_listed || !is_ignored_module(&names[i], ignored) {
            r.push(i);
        }
        i = i + 1;
    }
    r
}

} // verus!
