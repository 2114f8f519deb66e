//! Transport-agnostic registration surface.
//!
//! The pool exposes its operations as a named set of RPC method names;
//! an external transport adapts that set into its own calling
//! convention. Inserting a set into a registration context replaces
//! any prior set registered under the same name, so registration is
//! idempotent.
use vstd::prelude::*;

verus! {

/// Mathematical content of a named operation set: its name and its
/// method names.
pub ghost struct ModulesView {
    pub name: Seq<char>,
    pub methods: Seq<Seq<char>>,
}

/// A named set of RPC methods, in a transport-agnostic form.
pub struct RpcModules {
    pub name: String,
    pub methods: Vec<String>,
}

impl View for RpcModules {
    type V = ModulesView;

    open spec fn view(&self) -> ModulesView {
        ModulesView { name: self.name@, methods: self.methods@.map_values(|m: String| m@) }
    }
}

/// Whether two strings hold the same characters.
fn str_eq(a: &str, b: &str) -> (r: bool)
    ensures
        r == (a@ == b@),
{
    let na = a.unicode_len();
    let nb = b.unicode_len();
    if na != nb {
        return false;
    }
    let mut i: usize = 0;
    while i < na
        invariant
            na == a@.len(),
            nb == b@.len(),
            na == nb,
            i <= na,
            forall|j: int| 0 <= j < i ==> a@[j] == b@[j],
        decreases na - i,
    {
        let ca = a.get_char(i);
        let cb = b.get_char(i);
        if ca != cb {
            proof {
                assert(a@[i as int] != b@[i as int]);
            }
            return false;
        }
        i += 1;
    }
    proof {
        assert(a@ =~= b@);
    }
    true
}

/// Position of the first operation set named `n`, or -1 if none.
pub open spec fn find_name(s: Seq<ModulesView>, n: Seq<char>) -> int
    decreases s.len(),
{
    if s.len() == 0 {
        -1
    } else if s[0].name == n {
        0
    } else {
        let r = find_name(s.drop_first(), n);
        if r == -1 {
            -1
        } else {
            r + 1
        }
    }
}

/// Whether some operation set in `s` is named `n`.
pub open spec fn has_name(s: Seq<ModulesView>, n: Seq<char>) -> bool {
    exists|i: int| 0 <= i < s.len() && s[i].name == n
}

/// `find_name` finds the first position named `n`, and finds one
/// exactly when one exists.
pub proof fn lemma_find_name(s: Seq<ModulesView>, n: Seq<char>)
    ensures
        find_name(s, n) == -1 <==> !has_name(s, n),
        has_name(s, n) ==> {
            let i = find_name(s, n);
            &&& 0 <= i < s.len()
            &&& s[i].name == n
            &&& forall|j: int| 0 <= j < i ==> (#[trigger] s[j]).name != n
        },
    decreases s.len(),
{
    if s.len() == 0 {
    } else if s[0].name == n {
    } else {
        let t = s.drop_first();
        lemma_find_name(t, n);
        assert forall|j: int| 0 <= j < t.len() implies #[trigger] t[j] == s[j + 1] by {}
        if has_name(s, n) {
            let i = choose|i: int| 0 <= i < s.len() && s[i].name == n;
            assert(t[i - 1].name == n);
            assert(has_name(t, n));
        }
        if has_name(t, n) {
            let j = choose|j: int| 0 <= j < t.len() && t[j].name == n;
            assert(s[j + 1].name == n);
            assert(has_name(s, n));
        }
        if has_name(s, n) {
            let r = find_name(t, n);
            assert(find_name(s, n) == r + 1);
            assert(t[r] == s[r + 1]);
            assert(s[r + 1].name == n);
            assert forall|j: int| 0 <= j < r + 1 implies (#[trigger] s[j]).name != n by {
                if j > 0 {
                    assert(t[j - 1].name != n);
                }
            }
        }
    }
}

/// The context contents after inserting `m`: the first set with the
/// same name is replaced, or `m` is appended.
pub open spec fn register_spec(s: Seq<ModulesView>, m: ModulesView) -> Seq<ModulesView> {
    let i = find_name(s, m.name);
    if i == -1 {
        s.push(m)
    } else {
        s.update(i, m)
    }
}

/// Law: registration is idempotent. Inserting the same operation set
/// twice leaves the context exactly as after inserting it once.
pub proof fn lemma_register_idempotent(s: Seq<ModulesView>, m: ModulesView)
    ensures
        register_spec(register_spec(s, m), m) == register_spec(s, m),
{
    lemma_find_name(s, m.name);
    let i = find_name(s, m.name);
    let s1 = register_spec(s, m);
    lemma_find_name(s1, m.name);
    if i == -1 {
        assert(s1 == s.push(m));
        assert(s1[s.len() as int] == m);
        assert(has_name(s1, m.name));
        let i1 = find_name(s1, m.name);
        if i1 < s.len() {
            assert(s1[i1] == s[i1]);
            assert(has_name(s, m.name));
            assert(false);
        }
        assert(i1 == s.len());
        assert(s1.update(i1, m) =~= s1);
    } else {
        assert(s1 == s.update(i, m));
        assert(s1[i] == m);
        assert(has_name(s1, m.name));
        let i1 = find_name(s1, m.name);
        assert(s1[i1].name == m.name);
        if i1 < i {
            assert(s1[i1] == s[i1]);
            assert(s[i1].name != m.name);
            assert(false);
        }
        if i1 > i {
            assert(s1[i].name == m.name);
            assert(false);
        }
        assert(s1.update(i1, m) =~= s1);
    }
}

/// An error reported when the registration context refuses an
/// insertion.
#[derive(Debug, Clone, Copy, PartialEq, Eq)]
pub enum RegistrationError {
    /// A set with the same name is already registered and the
    /// insertion does not replace it.
    DuplicateName,
}

/// The mutable registration context an external transport hands to
/// the pool: the operation sets registered so far, in registration
/// order.
pub struct RegistrationContext {
    modules: Vec<RpcModules>,
}

impl View for RegistrationContext {
    type V = Seq<ModulesView>;

    closed spec fn view(&self) -> Seq<ModulesView> {
        self.modules@.map_values(|m: RpcModules| m@)
    }
}

impl RegistrationContext {
    /// An empty context.
    pub fn new() -> (r: RegistrationContext)
        ensures
            r@ == Seq::<ModulesView>::empty(),
    {
        let r = RegistrationContext { modules: Vec::new() };
        proof {
            assert(r@ =~= Seq::<ModulesView>::empty());
        }
        r
    }

    /// How many operation sets are registered.
    pub fn len(&self) -> (n: usize)
        ensures
            n == self@.len(),
    {
        self.modules.len()
    }

    /// The operation set at position `i`.
    pub fn get(&self, i: usize) -> (r: Option<&RpcModules>)
        ensures
            i < self@.len() ==> (r matches Some(m) && m@ == self@[i as int]),
            i >= self@.len() ==> r is None,
    {
        if i < self.modules.len() {
            Some(&self.modules[i])
        } else {
            None
        }
    }

    /// Position of the registered set named `name`, if any.
    fn position_of(&self, name: &str) -> (r: Option<usize>)
        ensures
            r matches Some(i) ==> i as int == find_name(self@, name@) && i < self@.len(),
            r is None ==> !has_name(self@, name@),
    {
        let ghost s = self@;
        let n = self.modules.len();
        let mut i: usize = 0;
        while i < n
            invariant
                n == self.modules@.len(),
                s == self@,
                i <= n,
                forall|j: int| 0 <= j < i ==> (#[trigger] s[j]).name != name@,
            decreases n - i,
        {
            proof {
                assert(s[i as int] == self.modules@.map_values(|m: RpcModules| m@)[i as int]);
            }
            if str_eq(self.modules[i].name.as_str(), name) {
                proof {
                    lemma_find_name(s, name@);
                    let i0 = find_name(s, name@);
                    if i0 < i as int {
                        assert(s[i0].name != name@);
                        assert(false);
                    }
                    if i0 > i as int {
                        assert(s[i as int].name != name@);
                        assert(false);
                    }
                }
                return Some(i);
            }
            i += 1;
        }
        None
    }

    /// Inserts `m`, replacing any prior set registered under the same
    /// name; never refuses.
    pub fn add_or_replace(&mut self, m: RpcModules)
        ensures
            final(self)@ == register_spec(old(self)@, m@),
    {
        let ghost before = old(self)@;
        let pos = self.position_of(m.name.as_str());
        match pos {
            Some(i) => {
                self.modules[i] = m;
                proof {
                    assert(self@ =~= before.update(i as int, m@));
                }
            },
            None => {
                proof {
                    lemma_find_name(before, m@.name);
                }
                self.modules.push(m);
                proof {
                    assert(self@ =~= before.push(m@));
                }
            },
        }
    }

    /// Inserts `m` only if no set with the same name is registered;
    /// refuses a duplicate name and leaves the context unchanged.
    pub fn add_module(&mut self, m: RpcModules) -> (r: Result<(), RegistrationError>)
        ensures
            r is Ok <==> !has_name(old(self)@, m@.name),
            r is Ok ==> final(self)@ == old(self)@.push(m@),
            r is Err ==> final(self)@ == old(self)@ && r == Err::<(), RegistrationError>(
                RegistrationError::DuplicateName,
            ),
    {
        let ghost before = old(self)@;
        let pos = self.position_of(m.name.as_str());
        match pos {
            Some(_) => {
                proof {
                    lemma_find_name(before, m@.name);
                }
                Err(RegistrationError::DuplicateName)
            },
            None => {
                self.modules.push(m);
                proof {
                    assert(self@ =~= before.push(m@));
                }
                Ok(())
            },
        }
    }
}

} // verus!
