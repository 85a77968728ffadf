use vstd::prelude::*;
use vstd::string::StringSliceAdditionalSpecFns;
use vstd::utf8::encode_utf8_decode_utf8;

verus! {

/// Whether `a` and `b` hold the same text, compared byte by byte.
fn same_text(a: &str, b: &str) -> (r: bool)
    ensures
        r == (a@ == b@),
{
    proof {
        encode_utf8_decode_utf8(a@);
        encode_utf8_decode_utf8(b@);
    }
    let x = a.as_bytes();
    let y = b.as_bytes();
    if x.len() != y.len() {
        return false;
    }
    let mut i: usize = 0;
    while i < x.len()
        invariant
            x@ == a.spec_bytes(),
            y@ == b.spec_bytes(),
            x@.len() == y@.len(),
            i <= x@.len(),
            forall|j: int| 0 <= j < i ==> x@[j] == y@[j],
        decreases x@.len() - i,
    {
        if x[i] != y[i] {
            return false;
        }
        i = i + 1;
    }
    assert(x@ =~= y@);
    true
}

/// The positions, in increasing order, of the entries of `names` that equal
/// `cmd`: a dispatcher runs the commands found there.
pub fn matching_commands(names: &[&str], cmd: &str) -> (r: Vec<usize>)
    ensures
        forall|k: int| 0 <= k < r@.len() ==> r@[k] < names@.len() && names@[r@[k] as int]@ == cmd@,
        forall|k: int, l: int| 0 <= k < l < r@.len() ==> r@[k] < r@[l],
        forall|i: int| 0 <= i < names@.len() && names@[i]@ == cmd@ ==> r@.contains(i as usize),
{
    let mut r: Vec<usize> = Vec::new();
    let mut i: usize = 0;
    while i < names.len()
        invariant
            i <= names@.len(),
            forall|k: int| 0 <= k < r@.len() ==> r@[k] < i && names@[r@[k] as int]@ == cmd@,
            forall|k: int, l: int| 0 <= k < l < r@.len() ==> r@[k] < r@[l],
            forall|j: int| 0 <= j < i && names@[j]@ == cmd@ ==> r@.contains(j as usize),
        decreases names@.len() - i,
    {
        let ghost before = r@;
        if same_text(names[i], cmd) {
            r.push(i);
        }
        assert forall|j: int| 0 <= j <= i && names@[j]@ == cmd@ implies r@.contains(j as usize) by {
            if j < i {
                let k = choose|k: int| 0 <= k < before.len() && before[k] == j as usize;
                assert(r@[k] == j as usize);
            } else {
                assert(r@[r@.len() - 1] == i);
            }
        }
        i = i + 1;
    }
    r
}

/// Maps a command name and its argument text to an action.
pub trait Dispatcher {
    /// Runs the command named `cmd` with the arguments `args`.
    fn dispatch(&self, cmd: &str, args: &str);
}

/// A command shell that hands each command to its dispatcher.
pub struct Shell<D: Dispatcher> {
    dispatcher: D,
}

impl<D: Dispatcher> Shell<D> {
    /// The dispatcher the shell hands commands to.
    pub closed spec fn spec_dispatcher(&self) -> D {
        self.dispatcher
    }

    pub fn new(dispatcher: D) -> (r: Self)
        ensures
            r.spec_dispatcher() == dispatcher,
    {
        Shell { dispatcher }
    }

    /// Hands the command named `cmd` with the arguments `args` to the
    /// dispatcher.
    pub fn run(&self, cmd: &str, args: &str) {
        self.dispatcher.dispatch(cmd, args)
    }
}

} // verus!
