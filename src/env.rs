use vstd::prelude::*;

use crate::error::{outcome, Error, Fault};
use crate::host::{clone_replies, replies_view, PortState, Reply, ReplyModel, Request, RequestModel};
use crate::value::{values_view, lemma_values_view, Datum, IOFunc, PrimitiveFunc, Value};

verus! {

/// The bindings captured when a function value is created: each variable
/// name with the slot that holds its value.
#[derive(Debug)]
pub struct Closure {
    vars: Vec<(String, usize)>,
}

impl View for Closure {
    type V = Map<Seq<char>, usize>;

    closed spec fn view(&self) -> Map<Seq<char>, usize> {
        vars_map(entries_view(self.vars@))
    }
}

impl Closure {
    #[verifier::type_invariant]
    spec fn inv(&self) -> bool {
        unique_names(entries_view(self.vars@))
    }
}

impl Clone for Closure {
    fn clone(&self) -> (r: Self)
        ensures
            r@ == self@,
    {
        let mut vars: Vec<(String, usize)> = Vec::new();
        let mut i: usize = 0;
        while i < self.vars.len()
            invariant
                i <= self.vars.len(),
                vars@.len() == i,
                forall|j: int| 0 <= j < i ==> (#[trigger] vars@[j]).0@ == self.vars@[j].0@
                    && vars@[j].1 == self.vars@[j].1,
            decreases self.vars.len() - i,
        {
            let e = &self.vars[i];
            vars.push((e.0.clone(), e.1));
            i = i + 1;
        }
        proof {
            use_type_invariant(self);
            assert(entries_view(vars@) =~= entries_view(self.vars@));
        }
        Closure { vars }
    }
}


impl PartialEq for Closure {
    fn eq(&self, other: &Closure) -> (r: bool)
        ensures
            r == (self@ == other@),
    {
        proof {
            use_type_invariant(self);
            use_type_invariant(other);
        }
        let r = covers(&self.vars, &other.vars) && covers(&other.vars, &self.vars);
        proof {
            if r {
                assert(self@ =~= other@);
            }
        }
        r
    }
}

/// Every binding that `a` makes, `b` makes too.
fn covers(a: &Vec<(String, usize)>, b: &Vec<(String, usize)>) -> (r: bool)
    requires
        unique_names(entries_view(a@)),
        unique_names(entries_view(b@)),
    ensures
        r == (forall|n: Seq<char>| #[trigger] vars_map(entries_view(a@)).contains_key(n) ==> (
            vars_map(entries_view(b@)).contains_key(n) && vars_map(entries_view(b@))[n]
                == vars_map(entries_view(a@))[n])),
{
    let ghost ma = vars_map(entries_view(a@));
    let ghost mb = vars_map(entries_view(b@));
    let mut i: usize = 0;
    while i < a.len()
        invariant
            i <= a.len(),
            unique_names(entries_view(a@)),
            unique_names(entries_view(b@)),
            ma == vars_map(entries_view(a@)),
            mb == vars_map(entries_view(b@)),
            forall|j: int| 0 <= j < i ==> #[trigger] mb.contains_key(entries_view(a@)[j].0)
                && mb[entries_view(a@)[j].0] == entries_view(a@)[j].1,
        decreases a.len() - i,
    {
        proof {
            lemma_vars_map_at(entries_view(a@), i as int);
        }
        match find_var(b, a[i].0.as_str()) {
            Some(k) => {
                proof {
                    lemma_vars_map_at(entries_view(b@), k as int);
                }
                if b[k].1 != a[i].1 {
                    return false;
                }
            },
            None => {
                return false;
            },
        }
        i = i + 1;
    }
    proof {
        assert forall|n: Seq<char>| #[trigger] ma.contains_key(n) implies mb.contains_key(n) && mb[n] == ma[n] by {
            let es = entries_view(a@);
            if forall|j: int| 0 <= j < es.len() ==> (#[trigger] es[j]).0 != n {
                lemma_vars_map_absent(es, n);
            } else {
                let j = choose|j: int| 0 <= j < es.len() && (#[trigger] es[j]).0 == n;
                lemma_vars_map_at(es, j);
                assert(mb.contains_key(es[j].0));
            }
        }
    }
    true
}

impl vstd::std_specs::cmp::PartialEqSpecImpl for Closure {
    open spec fn obeys_eq_spec() -> bool {
        true
    }

    open spec fn eq_spec(&self, other: &Closure) -> bool {
        self@ == other@
    }
}


/// The bindings that a sequence of (name, slot) entries makes, a later
/// entry for a name overriding an earlier one.
pub open spec fn vars_map(s: Seq<(Seq<char>, usize)>) -> Map<Seq<char>, usize>
    decreases s.len(),
{
    if s.len() == 0 {
        Map::empty()
    } else {
        vars_map(s.drop_last()).insert(s.last().0, s.last().1)
    }
}

/// No name occurs twice.
pub open spec fn unique_names(s: Seq<(Seq<char>, usize)>) -> bool {
    forall|i: int, j: int| 0 <= i < s.len() && 0 <= j < s.len() && #[trigger] s[i].0 == #[trigger] s[j].0 ==> i == j
}

proof fn lemma_vars_map_absent(s: Seq<(Seq<char>, usize)>, n: Seq<char>)
    requires
        forall|i: int| 0 <= i < s.len() ==> (#[trigger] s[i]).0 != n,
    ensures
        !vars_map(s).contains_key(n),
    decreases s.len(),
{
    if s.len() > 0 {
        lemma_vars_map_absent(s.drop_last(), n);
    }
}

proof fn lemma_vars_map_at(s: Seq<(Seq<char>, usize)>, k: int)
    requires
        unique_names(s),
        0 <= k < s.len(),
    ensures
        vars_map(s).contains_key(s[k].0),
        vars_map(s)[s[k].0] == s[k].1,
    decreases s.len(),
{
    if k < s.len() - 1 {
        let t = s.drop_last();
        assert(t[k] == s[k]);
        assert(unique_names(t)) by {
            assert forall|i: int, j: int| 0 <= i < t.len() && 0 <= j < t.len() && #[trigger] t[i].0 == #[trigger] t[j].0 implies i == j by {
                assert(s[i].0 == s[j].0);
            }
        }
        lemma_vars_map_at(t, k);
        assert(s[s.len() - 1].0 != s[k].0);
    }
}

proof fn lemma_vars_map_update(s: Seq<(Seq<char>, usize)>, k: int, v: usize)
    requires
        unique_names(s),
        0 <= k < s.len(),
    ensures
        unique_names(s.update(k, (s[k].0, v))),
        vars_map(s.update(k, (s[k].0, v))) == vars_map(s).insert(s[k].0, v),
{
    let t = s.update(k, (s[k].0, v));
    assert(unique_names(t)) by {
        assert forall|i: int, j: int| 0 <= i < t.len() && 0 <= j < t.len() && #[trigger] t[i].0 == #[trigger] t[j].0 implies i == j by {
            assert(s[i].0 == s[j].0);
        }
    }
    let m = vars_map(s).insert(s[k].0, v);
    assert forall|n: Seq<char>| #[trigger] vars_map(t).contains_key(n) == m.contains_key(n)
        && (vars_map(t).contains_key(n) ==> vars_map(t)[n] == m[n]) by {
        if exists|i: int| 0 <= i < s.len() && (#[trigger] s[i]).0 == n {
            let i = choose|i: int| 0 <= i < s.len() && (#[trigger] s[i]).0 == n;
            lemma_vars_map_at(s, i);
            lemma_vars_map_at(t, i);
            if i != k {
                assert(s[i].0 != s[k].0);
            }
        } else {
            lemma_vars_map_absent(s, n);
            assert forall|i: int| 0 <= i < t.len() implies (#[trigger] t[i]).0 != n by {
                assert(s[i].0 != n);
            }
            lemma_vars_map_absent(t, n);
        }
    }
    assert(vars_map(t).dom() =~= m.dom());
    assert(vars_map(t) =~= m);
}

/// Where each name lies in `vars`, if it is there.
fn find_var(vars: &Vec<(String, usize)>, name: &str) -> (r: Option<usize>)
    requires
        unique_names(entries_view(vars@)),
    ensures
        match r {
            Some(k) => k < vars@.len() && vars@[k as int].0@ == name@,
            None => !vars_map(entries_view(vars@)).contains_key(name@),
        },
{
    let key = name.to_owned();
    let mut i: usize = 0;
    while i < vars.len()
        invariant
            i <= vars.len(),
            key@ == name@,
            forall|j: int| 0 <= j < i ==> (#[trigger] vars@[j]).0@ != name@,
        decreases vars.len() - i,
    {
        if vars[i].0 == key {
            return Some(i);
        }
        i = i + 1;
    }
    proof {
        let es = entries_view(vars@);
        assert forall|j: int| 0 <= j < es.len() implies (#[trigger] es[j]).0 != name@ by {
            assert(vars@[j].0@ != name@);
        }
        lemma_vars_map_absent(es, name@);
    }
    None
}

pub open spec fn entries_view(vars: Seq<(String, usize)>) -> Seq<(Seq<char>, usize)> {
    vars.map_values(|e: (String, usize)| (e.0@, e.1))
}

/// Binds `name` to `slot` in `vars`, in place when the name is there already.
fn bind(vars: &mut Vec<(String, usize)>, name: String, slot: usize)
    requires
        unique_names(entries_view(old(vars)@)),
    ensures
        unique_names(entries_view(final(vars)@)),
        vars_map(entries_view(final(vars)@)) == vars_map(entries_view(old(vars)@)).insert(name@, slot),
{
    let ghost es = entries_view(vars@);
    match find_var(vars, name.as_str()) {
        Some(k) => {
            proof {
                lemma_vars_map_update(es, k as int, slot);
            }
            vars.set(k, (name, slot));
            proof {
                assert(entries_view(vars@) =~= es.update(k as int, (es[k as int].0, slot)));
            }
        },
        None => {
            let ghost n = name@;
            vars.push((name, slot));
            proof {
                let t = entries_view(vars@);
                assert(t =~= es.push((n, slot)));
                assert(t.drop_last() =~= es);
                assert forall|j: int| 0 <= j < es.len() implies (#[trigger] es[j]).0 != n by {
                    if es[j].0 == n {
                        lemma_vars_map_at(es, j);
                    }
                }
                assert(unique_names(t)) by {
                    assert forall|i: int, j: int| 0 <= i < t.len() && 0 <= j < t.len() && #[trigger] t[i].0 == #[trigger] t[j].0 implies i == j by {
                        if i < es.len() && j < es.len() {
                            assert(es[i].0 == es[j].0);
                        }
                    }
                }
            }
        },
    }
}


impl Default for Closure {
    /// The captured bindings of no variable.
    fn default() -> (r: Closure)
        ensures
            r@ == Map::<Seq<char>, usize>::empty(),
    {
        let vars: Vec<(String, usize)> = Vec::new();
        proof {
            assert(entries_view(vars@) =~= Seq::<(Seq<char>, usize)>::empty());
        }
        Closure { vars }
    }
}

/// The mathematical form of an `Env`: the contents of the slots, and the
/// slot that each bound name refers to.
pub struct EnvModel {
    pub slots: Seq<Datum>,
    pub bindings: Map<Seq<char>, usize>,
    /// The state of each port, by its number.
    pub ports: Seq<PortState>,
    /// The answers to outside work given for this evaluation.
    pub replies: Seq<ReplyModel>,
    /// How many of those answers have been taken.
    pub used: nat,
    /// The outside work the evaluation stopped for, if it did.
    pub pending: Option<RequestModel>,
}

impl EnvModel {
    pub open spec fn empty() -> EnvModel {
        EnvModel {
            slots: Seq::empty(),
            bindings: Map::empty(),
            ports: Seq::empty(),
            replies: Seq::empty(),
            used: 0,
            pending: None,
        }
    }

    /// Takes the next answer given; when none is left, records the request
    /// and has none.
    pub open spec fn perform(self, req: RequestModel) -> (EnvModel, Option<ReplyModel>) {
        if self.used < self.replies.len() {
            (EnvModel { used: self.used + 1, ..self }, Some(self.replies[self.used as int]))
        } else {
            (EnvModel { pending: Some(req), ..self }, None)
        }
    }

    pub open spec fn is_port(self, id: usize, state: PortState) -> bool {
        id < self.ports.len() && self.ports[id as int] == state
    }

    /// Opens a file as a new port, numbered after the ones opened before.
    pub open spec fn open_port(self, path: Seq<char>, state: PortState) -> (EnvModel, Result<Datum, Fault>) {
        let id = self.ports.len() as usize;
        let req = if state == PortState::Read {
            RequestModel::OpenRead(path, id)
        } else {
            RequestModel::OpenWrite(path, id)
        };
        let (e1, rep) = self.perform(req);
        match rep {
            None => (e1, Err(Fault::Pending)),
            Some(ReplyModel::Done) => (EnvModel { ports: e1.ports.push(state), ..e1 }, Ok(Datum::Port(id))),
            Some(ReplyModel::Failed(m)) => (e1, Err(Fault::IO(m))),
            Some(ReplyModel::Text(_)) => (e1, Err(Fault::IO(UNEXPECTED_REPLY@))),
        }
    }

    /// Closes an open port; closing one that is not open does nothing.
    pub open spec fn close_port(self, id: usize) -> (EnvModel, Result<Datum, Fault>) {
        if self.is_port(id, PortState::Read) || self.is_port(id, PortState::Write) {
            let (e1, rep) = EnvModel {
                ports: self.ports.update(id as int, PortState::Closed),
                ..self
            }.perform(RequestModel::Close(id));
            match rep {
                None => (e1, Err(Fault::Pending)),
                Some(_) => (e1, Ok(Datum::Bool(true))),
            }
        } else {
            (self, Ok(Datum::Bool(true)))
        }
    }

    /// The slot that a name refers to, if it is bound to one that exists.
    pub open spec fn lookup(self, name: Seq<char>) -> Option<usize> {
        if self.bindings.contains_key(name) && self.bindings[name] < self.slots.len() {
            Some(self.bindings[name])
        } else {
            None
        }
    }

    /// A new slot holding `d`, with `name` bound to it.
    pub open spec fn define(self, name: Seq<char>, d: Datum) -> EnvModel {
        EnvModel {
            slots: self.slots.push(d),
            bindings: self.bindings.insert(name, self.slots.len() as usize),
            ..self
        }
    }
}

pub const UNEXPECTED_REPLY: &'static str = "the answer does not fit the request";

pub const NOT_READ_PORT: &'static str = "Port was not opened, was closed or is not a read port";

pub const NOT_WRITE_PORT: &'static str = "Port was not opened, was closed or is not a write port";

/// The variables of an evaluation session: a store of slots that only
/// grows, and the slot each variable name refers to; with the ports opened
/// and the answers to outside work for the evaluation under way. The fields
/// are private: every environment is made by `new` or `primitive_bindings`
/// and changed by methods that keep `wf`.
#[derive(Debug)]
pub struct Env {
    vals: Vec<Value>,
    vars: Vec<(String, usize)>,
    ports: Vec<PortState>,
    replies: Vec<Reply>,
    used: usize,
    pending: Option<Request>,
}

impl View for Env {
    type V = EnvModel;

    closed spec fn view(&self) -> EnvModel {
        EnvModel {
            slots: values_view(self.vals@),
            bindings: vars_map(entries_view(self.vars@)),
            ports: self.ports@,
            replies: replies_view(self.replies@),
            used: self.used as nat,
            pending: match self.pending {
                Some(r) => Some(r@),
                None => None,
            },
        }
    }
}

impl Env {
    /// The invariant of an environment: no name is listed twice.
    pub closed spec fn wf(&self) -> bool {
        unique_names(entries_view(self.vars@))
    }

    /// An environment with no variables.
    pub fn new() -> (r: Env)
        ensures
            r.wf(),
            r@ == EnvModel::empty(),
    {
        let r = Env {
            vals: Vec::new(),
            vars: Vec::new(),
            ports: Vec::new(),
            replies: Vec::new(),
            used: 0,
            pending: None,
        };
        proof {
            assert(entries_view(r.vars@) =~= Seq::<(Seq<char>, usize)>::empty());
            assert(values_view(r.vals@) =~= Seq::<Datum>::empty());
            assert(replies_view(r.replies@) =~= Seq::<ReplyModel>::empty());
            assert(r.ports@ =~= Seq::<PortState>::empty());
        }
        r
    }

    /// The value of a variable.
    pub fn get_var(&self, var: &str) -> (r: Result<&Value, Error>)
        requires
            self.wf(),
        ensures
            match self@.lookup(var@) {
                Some(i) => r matches Ok(v) && v@ == self@.slots[i as int],
                None => r matches Err(e) && e@ == Fault::UnboundVar(
                    "Getting an unbound variable"@,
                    var@,
                ),
            },
    {
        proof {
            lemma_values_view(self.vals@);
        }
        match find_var(&self.vars, var) {
            Some(k) => {
                proof {
                    lemma_vars_map_at(entries_view(self.vars@), k as int);
                }
                let i = self.vars[k].1;
                if i < self.vals.len() {
                    Ok(&self.vals[i])
                } else {
                    Err(Error::UnboundVar("Getting an unbound variable".to_owned(), var.to_owned()))
                }
            },
            None => Err(Error::UnboundVar("Getting an unbound variable".to_owned(), var.to_owned())),
        }
    }

    /// Stores a value in the slot of a variable that is bound already.
    pub fn set_var(&mut self, var: &str, val: Value) -> (r: Result<Value, Error>)
        requires
            old(self).wf(),
        ensures
            final(self).wf(),
            match old(self)@.lookup(var@) {
                Some(i) => r matches Ok(v) && v@ == val@ && final(self)@ == (EnvModel {
                    slots: old(self)@.slots.update(i as int, val@),
                    ..old(self)@
                }),
                None => r matches Err(e) && e@ == Fault::UnboundVar("Setting an unbound var"@, var@)
                    && final(self)@ == old(self)@,
            },
    {
        proof {
            lemma_values_view(self.vals@);
        }
        match find_var(&self.vars, var) {
            Some(k) => {
                proof {
                    lemma_vars_map_at(entries_view(self.vars@), k as int);
                }
                let i = self.vars[k].1;
                if i < self.vals.len() {
                    let stored = val.clone();
                    self.vals.set(i, stored);
                    proof {
                        lemma_values_view(self.vals@);
                        assert(values_view(self.vals@) =~= old(self)@.slots.update(i as int, val@));
                    }
                    Ok(val)
                } else {
                    Err(Error::UnboundVar("Setting an unbound var".to_owned(), var.to_owned()))
                }
            },
            None => Err(Error::UnboundVar("Setting an unbound var".to_owned(), var.to_owned())),
        }
    }

    /// Stores a value in a new slot and binds the name to it.
    pub fn define_var(&mut self, var: String, val: Value) -> (r: Value)
        requires
            old(self).wf(),
        ensures
            final(self).wf(),
            r@ == val@,
            final(self)@ == old(self)@.define(var@, val@),
    {
        let i = self.vals.len();
        let stored = val.clone();
        bind(&mut self.vars, var, i);
        self.vals.push(stored);
        proof {
            lemma_values_view(self.vals@);
            lemma_values_view(old(self).vals@);
            assert(values_view(self.vals@) =~= old(self)@.slots.push(val@));
        }
        val
    }

    /// The bindings as they are now, to be captured by a function value.
    pub fn make_closure(&self) -> (r: Closure)
        requires
            self.wf(),
        ensures
            r@ == self@.bindings,
    {
        let mut vars: Vec<(String, usize)> = Vec::new();
        let mut i: usize = 0;
        while i < self.vars.len()
            invariant
                i <= self.vars.len(),
                vars@.len() == i,
                forall|j: int| 0 <= j < i ==> (#[trigger] vars@[j]).0@ == self.vars@[j].0@
                    && vars@[j].1 == self.vars@[j].1,
            decreases self.vars.len() - i,
        {
            vars.push((self.vars[i].0.clone(), self.vars[i].1));
            i = i + 1;
        }
        proof {
            assert(entries_view(vars@) =~= entries_view(self.vars@));
        }
        Closure { vars }
    }

    /// Lays captured bindings over the current ones.
    pub fn with_closure(&mut self, closure: &Closure)
        requires
            old(self).wf(),
        ensures
            final(self).wf(),
            final(self)@ == (EnvModel {
                bindings: old(self)@.bindings.union_prefer_right(closure@),
                ..old(self)@
            }),
    {
        let ghost es = entries_view(closure.vars@);
        let mut i: usize = 0;
        while i < closure.vars.len()
            invariant
                i <= closure.vars.len(),
                es == entries_view(closure.vars@),
                self.wf(),
                self@ == (EnvModel { bindings: self@.bindings, ..old(self)@ }),
                self@.bindings == old(self)@.bindings.union_prefer_right(
                    vars_map(es.subrange(0, i as int)),
                ),
            decreases closure.vars.len() - i,
        {
            let name = closure.vars[i].0.clone();
            let slot = closure.vars[i].1;
            bind(&mut self.vars, name, slot);
            proof {
                let next = es.subrange(0, i + 1);
                assert(next.drop_last() =~= es.subrange(0, i as int));
                assert(self@.bindings =~= old(self)@.bindings.union_prefer_right(vars_map(next)));
            }
            i = i + 1;
        }
        proof {
            assert(es.subrange(0, es.len() as int) =~= es);
        }
    }

    /// Replaces the current bindings by captured ones.
    pub fn load_closure(&mut self, closure: Closure)
        requires
            old(self).wf(),
        ensures
            final(self).wf(),
            final(self)@ == (EnvModel { bindings: closure@, ..old(self)@ }),
    {
        self.vars = Vec::new();
        proof {
            assert(entries_view(self.vars@) =~= Seq::<(Seq<char>, usize)>::empty());
            assert(Map::<Seq<char>, usize>::empty().union_prefer_right(closure@) =~= closure@);
        }
        self.with_closure(&closure);
    }
}


impl Default for Env {
    /// An environment with no variables.
    fn default() -> (r: Env)
        ensures
            r.wf(),
            r@ == EnvModel::empty(),
    {
        Env::new()
    }
}

impl Clone for Env {
    fn clone(&self) -> (r: Self)
        ensures
            r@ == self@,
            r.wf() == self.wf(),
    {
        let mut vars: Vec<(String, usize)> = Vec::new();
        let mut i: usize = 0;
        while i < self.vars.len()
            invariant
                i <= self.vars.len(),
                vars@.len() == i,
                forall|j: int| 0 <= j < i ==> (#[trigger] vars@[j]).0@ == self.vars@[j].0@
                    && vars@[j].1 == self.vars@[j].1,
            decreases self.vars.len() - i,
        {
            vars.push((self.vars[i].0.clone(), self.vars[i].1));
            i = i + 1;
        }
        proof {
            assert(entries_view(vars@) =~= entries_view(self.vars@));
        }
        let pending = match &self.pending {
            Some(req) => Some(req.clone()),
            None => None,
        };
        Env {
            vals: crate::value::clone_values(self.vals.as_slice()),
            vars,
            ports: self.ports.clone(),
            replies: clone_replies(&self.replies),
            used: self.used,
            pending,
        }
    }
}

impl Env {
    /// Takes the next answer given for this evaluation; when none is left,
    /// records the request so that the caller can perform it.
    pub fn perform(&mut self, req: Request) -> (r: Option<Reply>)
        requires
            old(self).wf(),
        ensures
            final(self).wf(),
            (final(self)@, match r {
                Some(x) => Some(x@),
                None => None,
            }) == old(self)@.perform(req@),
    {
        if self.used < self.replies.len() {
            let r = self.replies[self.used].clone();
            self.used = self.used + 1;
            Some(r)
        } else {
            self.pending = Some(req);
            None
        }
    }

    /// The outside work the last evaluation stopped for, if it did.
    pub fn pending(&self) -> (r: Option<Request>)
        ensures
            match r {
                Some(x) => self@.pending == Some(x@),
                None => self@.pending is None,
            },
    {
        match &self.pending {
            Some(req) => Some(req.clone()),
            None => None,
        }
    }

    /// The answers given for this evaluation.
    pub fn replies(&self) -> (r: Vec<Reply>)
        ensures
            replies_view(r@) == self@.replies,
    {
        clone_replies(&self.replies)
    }

    /// This environment with the answers for an evaluation to come, none of
    /// them taken and nothing pending.
    pub fn with_replies(self, replies: Vec<Reply>) -> (r: Env)
        ensures
            r.wf() == self.wf(),
            r@ == (EnvModel { replies: replies_view(replies@), used: 0, pending: None, ..self@ }),
    {
        let mut r = self;
        r.replies = replies;
        r.used = 0;
        r.pending = None;
        r
    }

    fn open_port(&mut self, path: &str, state: PortState) -> (r: Result<Value, Error>)
        requires
            old(self).wf(),
        ensures
            final(self).wf(),
            (final(self)@, outcome(r)) == old(self)@.open_port(path@, state),
    {
        let id = self.ports.len();
        let req = if state == PortState::Read {
            Request::OpenRead(path.to_owned(), id)
        } else {
            Request::OpenWrite(path.to_owned(), id)
        };
        match self.perform(req) {
            None => Err(Error::Pending),
            Some(Reply::Done) => {
                self.ports.push(state);
                Ok(Value::Port(id))
            },
            Some(Reply::Failed(m)) => Err(Error::IO(m)),
            Some(Reply::Text(_)) => Err(Error::IO(UNEXPECTED_REPLY.to_owned())),
        }
    }

    /// Opens a file for reading as a new port.
    pub fn make_read_port(&mut self, path: &str) -> (r: Result<Value, Error>)
        requires
            old(self).wf(),
        ensures
            final(self).wf(),
            (final(self)@, outcome(r)) == old(self)@.open_port(path@, PortState::Read),
    {
        self.open_port(path, PortState::Read)
    }

    /// Opens a file for writing as a new port.
    pub fn make_write_port(&mut self, path: &str) -> (r: Result<Value, Error>)
        requires
            old(self).wf(),
        ensures
            final(self).wf(),
            (final(self)@, outcome(r)) == old(self)@.open_port(path@, PortState::Write),
    {
        self.open_port(path, PortState::Write)
    }

    /// Closes a port; closing one that is not open succeeds all the same.
    pub fn close_port(&mut self, port_id: &usize) -> (r: Result<Value, Error>)
        requires
            old(self).wf(),
        ensures
            final(self).wf(),
            (final(self)@, outcome(r)) == old(self)@.close_port(*port_id),
    {
        let id = *port_id;
        if id < self.ports.len() && (self.ports[id] == PortState::Read || self.ports[id] == PortState::Write) {
            self.ports.set(id, PortState::Closed);
            match self.perform(Request::Close(id)) {
                None => Err(Error::Pending),
                Some(_) => Ok(Value::Bool(true)),
            }
        } else {
            Ok(Value::Bool(true))
        }
    }

    /// The port, if it is open for reading.
    pub fn get_read_port(&self, port_id: &usize) -> (r: Result<usize, Error>)
        ensures
            self@.is_port(*port_id, PortState::Read) ==> r == Ok::<usize, Error>(*port_id),
            !self@.is_port(*port_id, PortState::Read) ==> (r matches Err(e) && e@ == Fault::Port(
                NOT_READ_PORT@,
            )),
    {
        if *port_id < self.ports.len() && self.ports[*port_id] == PortState::Read {
            Ok(*port_id)
        } else {
            Err(Error::Port(NOT_READ_PORT.to_owned()))
        }
    }

    /// The port, if it is open for writing.
    pub fn get_write_port(&self, port_id: &usize) -> (r: Result<usize, Error>)
        ensures
            self@.is_port(*port_id, PortState::Write) ==> r == Ok::<usize, Error>(*port_id),
            !self@.is_port(*port_id, PortState::Write) ==> (r matches Err(e) && e@ == Fault::Port(
                NOT_WRITE_PORT@,
            )),
    {
        if *port_id < self.ports.len() && self.ports[*port_id] == PortState::Write {
            Ok(*port_id)
        } else {
            Err(Error::Port(NOT_WRITE_PORT.to_owned()))
        }
    }
}

/// The environment a session starts from: each built-in operation bound to
/// its name, in this order.
pub open spec fn prelude() -> EnvModel {
    EnvModel::empty()
        .define("+"@, Datum::PrimitiveFunc(PrimitiveFunc::Add))
        .define("-"@, Datum::PrimitiveFunc(PrimitiveFunc::Sub))
        .define("*"@, Datum::PrimitiveFunc(PrimitiveFunc::Mul))
        .define("/"@, Datum::PrimitiveFunc(PrimitiveFunc::Div))
        .define("mod"@, Datum::PrimitiveFunc(PrimitiveFunc::Rem))
        .define("quotient"@, Datum::PrimitiveFunc(PrimitiveFunc::Div))
        .define("remainder"@, Datum::PrimitiveFunc(PrimitiveFunc::Rem))
        .define("="@, Datum::PrimitiveFunc(PrimitiveFunc::Eq))
        .define("<"@, Datum::PrimitiveFunc(PrimitiveFunc::Lt))
        .define(">"@, Datum::PrimitiveFunc(PrimitiveFunc::Gt))
        .define("/="@, Datum::PrimitiveFunc(PrimitiveFunc::Ne))
        .define(">="@, Datum::PrimitiveFunc(PrimitiveFunc::Ge))
        .define("<="@, Datum::PrimitiveFunc(PrimitiveFunc::Le))
        .define("&&"@, Datum::PrimitiveFunc(PrimitiveFunc::And))
        .define("||"@, Datum::PrimitiveFunc(PrimitiveFunc::Or))
        .define("string=?"@, Datum::PrimitiveFunc(PrimitiveFunc::StringEq))
        .define("string<?"@, Datum::PrimitiveFunc(PrimitiveFunc::StringLt))
        .define("string>?"@, Datum::PrimitiveFunc(PrimitiveFunc::StringGt))
        .define("string<=?"@, Datum::PrimitiveFunc(PrimitiveFunc::StringLe))
        .define("string>=?"@, Datum::PrimitiveFunc(PrimitiveFunc::StringGe))
        .define("car"@, Datum::PrimitiveFunc(PrimitiveFunc::Car))
        .define("cdr"@, Datum::PrimitiveFunc(PrimitiveFunc::Cdr))
        .define("cons"@, Datum::PrimitiveFunc(PrimitiveFunc::Cons))
        .define("eq?"@, Datum::PrimitiveFunc(PrimitiveFunc::Eqv))
        .define("eqv?"@, Datum::PrimitiveFunc(PrimitiveFunc::Eqv))
        .define("equal?"@, Datum::PrimitiveFunc(PrimitiveFunc::Equal))
        .define("apply"@, Datum::IOFunc(IOFunc::Apply))
        .define("open-input-file"@, Datum::IOFunc(IOFunc::MakeReadPort))
        .define("open-output-file"@, Datum::IOFunc(IOFunc::MakeWritePort))
        .define("close-input-port"@, Datum::IOFunc(IOFunc::ClosePort))
        .define("close-output-port"@, Datum::IOFunc(IOFunc::ClosePort))
        .define("read"@, Datum::IOFunc(IOFunc::Read))
        .define("write"@, Datum::IOFunc(IOFunc::Write))
        .define("read-contents"@, Datum::IOFunc(IOFunc::ReadContents))
        .define("read-all"@, Datum::IOFunc(IOFunc::ReadAll))
}

fn define_primitive_func(env: &mut Env, name: &str, func: PrimitiveFunc)
    requires
        old(env).wf(),
    ensures
        final(env).wf(),
        final(env)@ == old(env)@.define(name@, Datum::PrimitiveFunc(func)),
{
    env.define_var(name.to_owned(), Value::PrimitiveFunc(func));
}

fn define_io_func(env: &mut Env, name: &str, func: IOFunc)
    requires
        old(env).wf(),
    ensures
        final(env).wf(),
        final(env)@ == old(env)@.define(name@, Datum::IOFunc(func)),
{
    env.define_var(name.to_owned(), Value::IOFunc(func));
}

impl Env {
    /// An environment with every built-in operation bound to its name.
    pub fn primitive_bindings() -> (r: Env)
        ensures
            r.wf(),
            r@ == prelude(),
    {
        let mut env = Env::new();
        define_primitive_func(&mut env, "+", PrimitiveFunc::Add);
        define_primitive_func(&mut env, "-", PrimitiveFunc::Sub);
        define_primitive_func(&mut env, "*", PrimitiveFunc::Mul);
        define_primitive_func(&mut env, "/", PrimitiveFunc::Div);
        define_primitive_func(&mut env, "mod", PrimitiveFunc::Rem);
        define_primitive_func(&mut env, "quotient", PrimitiveFunc::Div);
        define_primitive_func(&mut env, "remainder", PrimitiveFunc::Rem);
        define_primitive_func(&mut env, "=", PrimitiveFunc::Eq);
        define_primitive_func(&mut env, "<", PrimitiveFunc::Lt);
        define_primitive_func(&mut env, ">", PrimitiveFunc::Gt);
        define_primitive_func(&mut env, "/=", PrimitiveFunc::Ne);
        define_primitive_func(&mut env, ">=", PrimitiveFunc::Ge);
        define_primitive_func(&mut env, "<=", PrimitiveFunc::Le);
        define_primitive_func(&mut env, "&&", PrimitiveFunc::And);
        define_primitive_func(&mut env, "||", PrimitiveFunc::Or);
        define_primitive_func(&mut env, "string=?", PrimitiveFunc::StringEq);
        define_primitive_func(&mut env, "string<?", PrimitiveFunc::StringLt);
        define_primitive_func(&mut env, "string>?", PrimitiveFunc::StringGt);
        define_primitive_func(&mut env, "string<=?", PrimitiveFunc::StringLe);
        define_primitive_func(&mut env, "string>=?", PrimitiveFunc::StringGe);
        define_primitive_func(&mut env, "car", PrimitiveFunc::Car);
        define_primitive_func(&mut env, "cdr", PrimitiveFunc::Cdr);
        define_primitive_func(&mut env, "cons", PrimitiveFunc::Cons);
        define_primitive_func(&mut env, "eq?", PrimitiveFunc::Eqv);
        define_primitive_func(&mut env, "eqv?", PrimitiveFunc::Eqv);
        define_primitive_func(&mut env, "equal?", PrimitiveFunc::Equal);
        define_io_func(&mut env, "apply", IOFunc::Apply);
        define_io_func(&mut env, "open-input-file", IOFunc::MakeReadPort);
        define_io_func(&mut env, "open-output-file", IOFunc::MakeWritePort);
        define_io_func(&mut env, "close-input-port", IOFunc::ClosePort);
        define_io_func(&mut env, "close-output-port", IOFunc::ClosePort);
        define_io_func(&mut env, "read", IOFunc::Read);
        define_io_func(&mut env, "write", IOFunc::Write);
        define_io_func(&mut env, "read-contents", IOFunc::ReadContents);
        define_io_func(&mut env, "read-all", IOFunc::ReadAll);
        env
    }
}

} // verus!
