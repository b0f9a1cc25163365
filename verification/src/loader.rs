//! The table of the programs that tasks can run, each under its name.

use vstd::prelude::*;
use crate::mm::image::ProgramImage;

verus! {

/// A program and the name under which tasks ask for it.
pub struct App {
    /// The name, as bytes.
    pub name: Vec<u8>,
    /// The program.
    pub image: ProgramImage,
}

/// The app at `index` is the first of the name `name`.
pub open spec fn first_named(apps: Seq<App>, name: Seq<u8>, index: int) -> bool {
    &&& 0 <= index < apps.len()
    &&& apps[index].name@ == name
    &&& forall|j: int| 0 <= j < index ==> (#[trigger] apps[j]).name@ != name
}

/// No app has the name `name`.
pub open spec fn none_named(apps: Seq<App>, name: Seq<u8>) -> bool {
    forall|j: int| 0 <= j < apps.len() ==> (#[trigger] apps[j]).name@ != name
}

/// Index of the first app of the name `name`, if there is one.
pub open spec fn app_named(apps: Seq<App>, name: Seq<u8>) -> Option<int> {
    if none_named(apps, name) {
        None
    } else {
        Some(choose|index: int| first_named(apps, name, index))
    }
}

/// The first app of a name is the only first.
pub proof fn lemma_app_named(apps: Seq<App>, name: Seq<u8>, index: int)
    requires
        first_named(apps, name, index),
    ensures
        app_named(apps, name) == Some(index),
{
    assert(!none_named(apps, name));
    let other = choose|other: int| first_named(apps, name, other);
    assert(first_named(apps, name, other));
    if other < index {
        assert(apps[other].name@ != name);
    } else if index < other {
        assert(apps[index].name@ != name);
    }
}

/// Tells whether two strings of bytes are the same.
pub fn same_bytes(a: &Vec<u8>, b: &Vec<u8>) -> (same: bool)
    ensures
        same == (a@ == b@),
{
    if a.len() != b.len() {
        return false;
    }
    let n = a.len();
    let mut i: usize = 0;
    while i < n
        invariant
            n == a@.len(),
            n == b@.len(),
            i <= n,
            forall|j: int| 0 <= j < i ==> a@[j] == b@[j],
        decreases n - i,
    {
        if a[i] != b[i] {
            return false;
        }
        i += 1;
    }
    assert(a@ =~= b@);
    true
}

/// Index of the first app of the name `name`.
pub fn get_app_data_by_name(apps: &Vec<App>, name: &Vec<u8>) -> (found: Option<usize>)
    ensures
        match found {
            Some(index) => first_named(apps@, name@, index as int) && app_named(apps@, name@) == Some(
                index as int,
            ),
            None => app_named(apps@, name@) is None,
        },
{
    let n = apps.len();
    let mut i: usize = 0;
    while i < n
        invariant
            n == apps@.len(),
            i <= n,
            forall|j: int| 0 <= j < i ==> (#[trigger] apps@[j]).name@ != name@,
        decreases n - i,
    {
        if same_bytes(&apps[i].name, name) {
            proof {
                lemma_app_named(apps@, name@, i as int);
            }
            return Some(i);
        }
        i += 1;
    }
    None
}

} // verus!
