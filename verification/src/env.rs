//! The environment snapshot: variable/value pairs captured once at startup
//! and consulted, never changed, by the probes.
use vstd::prelude::*;
use vstd::string::*;

verus! {

/// The value bound to `name` in `vs`, taking the first binding when a name
/// occurs more than once.
pub open spec fn env_lookup(vs: Seq<(Seq<char>, Seq<char>)>, name: Seq<char>) -> Option<Seq<char>>
    decreases vs.len(),
{
    if vs.len() == 0 {
        None
    } else if vs[0].0 == name {
        Some(vs[0].1)
    } else {
        env_lookup(vs.drop_first(), name)
    }
}

/// Variable/value pairs captured once at startup; immutable afterwards.
pub struct EnvSnapshot {
    pub vars: Vec<(String, String)>,
}

impl View for EnvSnapshot {
    type V = Seq<(Seq<char>, Seq<char>)>;

    open spec fn view(&self) -> Seq<(Seq<char>, Seq<char>)> {
        self.vars.deep_view()
    }
}

impl EnvSnapshot {
    pub fn new(vars: Vec<(String, String)>) -> (r: EnvSnapshot)
        ensures
            r@ == vars.deep_view(),
    {
        EnvSnapshot { vars }
    }

    /// The value of the variable `name`, if it is set.
    pub fn get(&self, name: &str) -> (r: Option<&String>)
        ensures
            r matches Some(v) ==> env_lookup(self@, name@) == Some(v@),
            r is None ==> env_lookup(self@, name@) is None,
    {
        let n = self.vars.len();
        let mut i: usize = 0;
        proof {
            assert(self@.skip(0) =~= self@);
        }
        while i < n
            invariant
                i <= n,
                n == self.vars@.len(),
                env_lookup(self@, name@) == env_lookup(self@.skip(i as int), name@),
            decreases n - i,
        {
            let ghost rem = self@.skip(i as int);
            proof {
                assert(rem[0] == self@[i as int]);
                assert(rem.drop_first() =~= self@.skip(i + 1));
            }
            if crate::text::str_eq(self.vars[i].0.as_str(), name) {
                return Some(&self.vars[i].1);
            }
            i = i + 1;
        }
        proof {
            assert(self@.skip(n as int) =~= Seq::<(Seq<char>, Seq<char>)>::empty());
        }
        None
    }
}

} // verus!
