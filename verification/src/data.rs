use vstd::prelude::*;
use vstd::string::*;
use crate::error::{ErrorView, InferError};
use crate::ty::{apply, compose, Subst, Ty, TyView};

verus! {

/// The map that a list of bindings stands for: a later entry wins over an
/// earlier one with the same name.
spec fn entries_map(s: Seq<(String, Ty)>) -> Subst
    decreases s.len(),
{
    if s.len() == 0 {
        Map::empty()
    } else {
        entries_map(s.drop_last()).insert(s.last().0@, s.last().1@)
    }
}

/// No two entries have the same name.
spec fn distinct_names(s: Seq<(String, Ty)>) -> bool {
    forall|i: int, j: int| 0 <= i < j < s.len() ==> (#[trigger] s[i]).0@ != (#[trigger] s[j]).0@
}

/// `env` with every type rewritten by `s`.
pub open spec fn substituted(env: Subst, s: Subst) -> Subst {
    Map::new(|k: Seq<char>| env.contains_key(k), |k: Seq<char>| apply(env[k], s))
}

proof fn lemma_last_match(s: Seq<(String, Ty)>, i: int, k: Seq<char>)
    requires
        0 <= i < s.len(),
        s[i].0@ == k,
        forall|j: int| i < j < s.len() ==> (#[trigger] s[j]).0@ != k,
    ensures
        entries_map(s).contains_key(k),
        entries_map(s)[k] == s[i].1@,
    decreases s.len(),
{
    if i < s.len() - 1 {
        lemma_last_match(s.drop_last(), i, k);
    }
}

proof fn lemma_no_match(s: Seq<(String, Ty)>, k: Seq<char>)
    requires
        forall|j: int| 0 <= j < s.len() ==> (#[trigger] s[j]).0@ != k,
    ensures
        !entries_map(s).contains_key(k),
    decreases s.len(),
{
    if s.len() > 0 {
        lemma_no_match(s.drop_last(), k);
    }
}

proof fn lemma_push(s: Seq<(String, Ty)>, e: (String, Ty))
    ensures
        entries_map(s.push(e)) == entries_map(s).insert(e.0@, e.1@),
{
    assert(s.push(e).drop_last() =~= s);
}

proof fn lemma_update(s: Seq<(String, Ty)>, i: int, e: (String, Ty))
    requires
        0 <= i < s.len(),
        s[i].0@ == e.0@,
        forall|j: int| i < j < s.len() ==> (#[trigger] s[j]).0@ != e.0@,
    ensures
        entries_map(s.update(i, e)) == entries_map(s).insert(e.0@, e.1@),
    decreases s.len(),
{
    let front = s.drop_last();
    if i == s.len() - 1 {
        assert(s.update(i, e).drop_last() =~= front);
        assert(entries_map(front).insert(e.0@, s[i].1@).insert(e.0@, e.1@) =~= entries_map(
            front,
        ).insert(e.0@, e.1@));
    } else {
        lemma_update(front, i, e);
        assert(s.update(i, e).drop_last() =~= front.update(i, e));
        assert(s.last().0@ != e.0@);
        assert(entries_map(front).insert(e.0@, e.1@).insert(s.last().0@, s.last().1@)
            =~= entries_map(front).insert(s.last().0@, s.last().1@).insert(e.0@, e.1@));
    }
}

proof fn lemma_distinct_len(s: Seq<(String, Ty)>)
    requires
        distinct_names(s),
    ensures
        entries_map(s).dom().finite(),
        entries_map(s).dom().len() == s.len(),
    decreases s.len(),
{
    broadcast use vstd::set::group_set_axioms, vstd::map::group_map_axioms;

    if s.len() > 0 {
        lemma_distinct_len(s.drop_last());
        lemma_no_match(s.drop_last(), s.last().0@);
        assert(entries_map(s).dom() =~= entries_map(s.drop_last()).dom().insert(s.last().0@));
    } else {
        assert(entries_map(s).dom() =~= Set::<Seq<char>>::empty());
    }
}

/// The place of the entry for `name`, if there is one.
fn position(entries: &Vec<(String, Ty)>, name: &String) -> (r: Option<usize>)
    ensures
        match r {
            Some(i) => i < entries.len() && entries@[i as int].0@ == name@ && entries_map(
                entries@,
            ).contains_key(name@) && entries_map(entries@)[name@] == entries@[i as int].1@
                && forall|j: int|
                i < j < entries.len() ==> (#[trigger] entries@[j]).0@ != name@,
            None => !entries_map(entries@).contains_key(name@) && forall|j: int|
                0 <= j < entries.len() ==> (#[trigger] entries@[j]).0@ != name@,
        },
{
    let mut i: usize = entries.len();
    while i > 0
        invariant
            i <= entries.len(),
            forall|j: int| i <= j < entries.len() ==> (#[trigger] entries@[j]).0@ != name@,
        decreases i,
    {
        i -= 1;
        if entries[i].0 == *name {
            proof {
                lemma_last_match(entries@, i as int, name@);
            }
            return Some(i);
        }
    }
    proof {
        lemma_no_match(entries@, name@);
    }
    None
}

fn find<'a>(entries: &'a Vec<(String, Ty)>, name: &String) -> (r: Option<&'a Ty>)
    ensures
        match r {
            Some(t) => entries_map(entries@).contains_key(name@) && entries_map(entries@)[name@]
                == t@,
            None => !entries_map(entries@).contains_key(name@),
        },
{
    match position(entries, name) {
        Some(i) => Some(&entries[i].1),
        None => None,
    }
}

/// Binds `name` to `ty`: in the place of the entry for `name` where there is
/// one, else at the end.
fn put(entries: &mut Vec<(String, Ty)>, name: String, ty: Ty)
    ensures
        entries_map(final(entries)@) == entries_map(old(entries)@).insert(name@, ty@),
        distinct_names(old(entries)@) ==> distinct_names(final(entries)@),
{
    match position(entries, &name) {
        Some(i) => {
            proof {
                lemma_update(entries@, i as int, (name, ty));
            }
            entries.set(i, (name, ty));
        },
        None => {
            proof {
                lemma_push(entries@, (name, ty));
            }
            entries.push((name, ty));
        },
    }
}

fn duplicate(entries: &Vec<(String, Ty)>) -> (r: Vec<(String, Ty)>)
    ensures
        r@ == entries@,
{
    let mut out: Vec<(String, Ty)> = Vec::new();
    let mut i: usize = 0;
    while i < entries.len()
        invariant
            i <= entries.len(),
            out@ == entries@.take(i as int),
        decreases entries.len() - i,
    {
        let name = entries[i].0.clone();
        let ty = entries[i].1.clone();
        out.push((name, ty));
        assert(out@ =~= entries@.take(i + 1));
        i += 1;
    }
    assert(entries@.take(i as int) =~= entries@);
    out
}

fn rewritten(entries: &Vec<(String, Ty)>, subs: &Substitutions) -> (r: Vec<(String, Ty)>)
    ensures
        entries_map(r@) == substituted(entries_map(entries@), subs@),
        distinct_names(entries@) ==> distinct_names(r@),
{
    let mut out: Vec<(String, Ty)> = Vec::new();
    let mut i: usize = 0;
    assert(entries_map(out@) =~= substituted(entries_map(entries@.take(0)), subs@));
    while i < entries.len()
        invariant
            i <= entries.len(),
            out@.len() == i,
            forall|j: int| 0 <= j < i ==> (#[trigger] out@[j]).0@ == entries@[j].0@,
            entries_map(out@) == substituted(entries_map(entries@.take(i as int)), subs@),
        decreases entries.len() - i,
    {
        let name = entries[i].0.clone();
        let ty = entries[i].1.clone().apply_subs(subs);
        proof {
            lemma_push(out@, (name, ty));
            assert(entries@.take(i + 1).drop_last() =~= entries@.take(i as int));
            assert(entries_map(out@).insert(name@, ty@) =~= substituted(
                entries_map(entries@.take(i + 1)),
                subs@,
            ));
        }
        out.push((name, ty));
        i += 1;
    }
    assert(entries@.take(i as int) =~= entries@);
    out
}

/// A finite map from type-variable name to type.
#[derive(Debug)]
pub struct Substitutions {
    entries: Vec<(String, Ty)>,
}

impl View for Substitutions {
    type V = Subst;

    closed spec fn view(&self) -> Subst {
        entries_map(self.entries@)
    }
}

impl Substitutions {
    #[verifier::type_invariant]
    spec fn well_formed(&self) -> bool {
        distinct_names(self.entries@)
    }
}

impl Clone for Substitutions {
    fn clone(&self) -> (r: Substitutions)
        ensures
            r@ == self@,
    {
        proof {
            use_type_invariant(self);
        }
        Substitutions { entries: duplicate(&self.entries) }
    }
}

impl Default for Substitutions {
    fn default() -> (r: Substitutions)
        ensures
            r@ == Map::<Seq<char>, TyView>::empty(),
    {
        Substitutions::new()
    }
}

impl core::ops::AddAssign for Substitutions {
    /// `older += newer` composes `newer` onto `older`.
    fn add_assign(&mut self, newer: Substitutions)
        ensures
            final(self)@ == compose(old(self)@, newer@),
    {
        self.compose(&newer);
    }
}

impl Substitutions {
    /// The substitution that binds nothing.
    pub fn new() -> (r: Substitutions)
        ensures
            r@ == Map::<Seq<char>, TyView>::empty(),
    {
        Substitutions { entries: Vec::new() }
    }

    /// Whether nothing is bound.
    pub fn is_empty(&self) -> (r: bool)
        ensures
            r == (self@ == Map::<Seq<char>, TyView>::empty()),
    {
        proof {
            if self.entries@.len() > 0 {
                assert(self@.contains_key(self.entries@.last().0@));
            }
        }
        self.entries.len() == 0
    }

    /// How many names are bound.
    pub fn len(&self) -> (r: usize)
        ensures
            self@.dom().finite(),
            r == self@.dom().len(),
    {
        proof {
            use_type_invariant(self);
            lemma_distinct_len(self.entries@);
        }
        self.entries.len()
    }

    /// Every binding, each name once.
    pub fn bindings(&self) -> (r: Vec<(String, Ty)>)
        ensures
            self@.dom().finite(),
            r@.len() == self@.dom().len(),
            forall|i: int|
                0 <= i < r@.len() ==> self@.contains_key((#[trigger] r@[i]).0@) && self@[r@[i].0@]
                    == r@[i].1@,
            forall|i: int, j: int|
                0 <= i < j < r@.len() ==> (#[trigger] r@[i]).0@ != (#[trigger] r@[j]).0@,
    {
        proof {
            use_type_invariant(self);
            lemma_distinct_len(self.entries@);
            assert forall|i: int| 0 <= i < self.entries@.len() implies self@.contains_key(
                (#[trigger] self.entries@[i]).0@,
            ) && self@[self.entries@[i].0@] == self.entries@[i].1@ by {
                lemma_last_match(self.entries@, i, self.entries@[i].0@);
            }
        }
        duplicate(&self.entries)
    }

    /// What `name` is bound to, if it is bound.
    pub fn get(&self, name: &String) -> (r: Option<&Ty>)
        ensures
            match r {
                Some(t) => self@.contains_key(name@) && self@[name@] == t@,
                None => !self@.contains_key(name@),
            },
    {
        find(&self.entries, name)
    }

    /// Binds `name` to `ty`, in place of what it was bound to before.
    pub fn insert(&mut self, name: String, ty: Ty)
        ensures
            final(self)@ == old(self)@.insert(name@, ty@),
    {
        proof {
            use_type_invariant(&*self);
        }
        let mut taken = Substitutions { entries: Vec::new() };
        core::mem::swap(self, &mut taken);
        let Substitutions { entries } = taken;
        let mut entries = entries;
        put(&mut entries, name, ty);
        *self = Substitutions { entries };
    }

    /// Composes `newer` onto this substitution: what is bound here is rewritten
    /// by `newer`, then the bindings of `newer` are added and win.
    pub fn compose(&mut self, newer: &Substitutions)
        ensures
            final(self)@ == compose(old(self)@, newer@),
    {
        proof {
            use_type_invariant(&*self);
        }
        let mut out = rewritten(&self.entries, newer);
        let mut i: usize = 0;
        assert(entries_map(newer.entries@.take(0)) =~= Map::<Seq<char>, TyView>::empty());
        while i < newer.entries.len()
            invariant
                i <= newer.entries.len(),
                newer@ == entries_map(newer.entries@),
                distinct_names(out@),
                forall|k: Seq<char>| #[trigger]
                    entries_map(out@).contains_key(k) <==> (old(self)@.contains_key(k)
                        || entries_map(newer.entries@.take(i as int)).contains_key(k)),
                forall|k: Seq<char>| #[trigger]
                    entries_map(out@).contains_key(k) ==> entries_map(out@)[k] == (if entries_map(
                        newer.entries@.take(i as int),
                    ).contains_key(k) {
                        entries_map(newer.entries@.take(i as int))[k]
                    } else {
                        apply(old(self)@[k], newer@)
                    }),
            decreases newer.entries.len() - i,
        {
            let name = newer.entries[i].0.clone();
            let ty = newer.entries[i].1.clone();
            proof {
                assert(newer.entries@.take(i + 1).drop_last() =~= newer.entries@.take(i as int));
            }
            put(&mut out, name, ty);
            i += 1;
        }
        assert(newer.entries@.take(i as int) =~= newer.entries@);
        assert(entries_map(out@) =~= compose(old(self)@, newer@));
        self.entries = out;
    }
}

/// The digit character of a number below ten.
pub open spec fn digit_char(d: nat) -> char {
    if d == 0 {
        '0'
    } else if d == 1 {
        '1'
    } else if d == 2 {
        '2'
    } else if d == 3 {
        '3'
    } else if d == 4 {
        '4'
    } else if d == 5 {
        '5'
    } else if d == 6 {
        '6'
    } else if d == 7 {
        '7'
    } else if d == 8 {
        '8'
    } else {
        '9'
    }
}

/// A number in decimal, most significant digit first.
pub open spec fn decimal(n: nat) -> Seq<char>
    decreases n,
{
    if n < 10 {
        seq![digit_char(n)]
    } else {
        decimal(n / 10).push(digit_char(n % 10))
    }
}

/// The name of the fresh type variable with the given number: the letter `t`
/// followed by the number in decimal.
pub open spec fn fresh_name(n: nat) -> Seq<char> {
    seq!['t'] + decimal(n)
}

fn digit_text(d: u64) -> (r: &'static str)
    requires
        d < 10,
    ensures
        r@ == seq![digit_char(d as nat)],
{
    proof {
        reveal_strlit("0");
        reveal_strlit("1");
        reveal_strlit("2");
        reveal_strlit("3");
        reveal_strlit("4");
        reveal_strlit("5");
        reveal_strlit("6");
        reveal_strlit("7");
        reveal_strlit("8");
        reveal_strlit("9");
    }
    let r = if d == 0 {
        "0"
    } else if d == 1 {
        "1"
    } else if d == 2 {
        "2"
    } else if d == 3 {
        "3"
    } else if d == 4 {
        "4"
    } else if d == 5 {
        "5"
    } else if d == 6 {
        "6"
    } else if d == 7 {
        "7"
    } else if d == 8 {
        "8"
    } else {
        "9"
    };
    assert(r@ =~= seq![digit_char(d as nat)]);
    r
}

fn decimal_text(n: u64) -> (r: String)
    ensures
        r@ == decimal(n as nat),
    decreases n,
{
    if n < 10 {
        String::from_str(digit_text(n))
    } else {
        let mut s = decimal_text(n / 10);
        s.append(digit_text(n % 10));
        assert(s@ =~= decimal(n as nat));
        s
    }
}

/// The types of the names in scope, and the number of the next fresh type
/// variable.
#[derive(Debug)]
pub struct Context {
    vars: Vec<(String, Ty)>,
    next: u64,
}

impl Clone for Context {
    fn clone(&self) -> (r: Context)
        ensures
            r.bindings() == self.bindings(),
            r.counter() == self.counter(),
    {
        proof {
            use_type_invariant(self);
        }
        Context { vars: duplicate(&self.vars), next: self.next }
    }
}

impl Default for Context {
    fn default() -> (r: Context)
        ensures
            r.bindings() == Map::<Seq<char>, TyView>::empty(),
            r.counter() == 0,
    {
        Context::new()
    }
}

impl Context {
    #[verifier::type_invariant]
    spec fn well_formed(&self) -> bool {
        distinct_names(self.vars@)
    }

    /// The type of each name in scope.
    pub closed spec fn bindings(&self) -> Subst {
        entries_map(self.vars@)
    }

    /// The number of the next fresh type variable.
    pub closed spec fn counter(&self) -> nat {
        self.next as nat
    }

    /// The context with nothing in scope that has issued no variable yet.
    pub fn new() -> (r: Context)
        ensures
            r.bindings() == Map::<Seq<char>, TyView>::empty(),
            r.counter() == 0,
    {
        Context { vars: Vec::new(), next: 0 }
    }

    /// How many fresh variables have been issued.
    pub fn issued(&self) -> (r: u64)
        ensures
            r == self.counter(),
    {
        self.next
    }

    /// The type of `name`, or `UnboundVariable` where it is not in scope.
    pub fn lookup(&self, name: &String) -> (r: Result<Ty, InferError>)
        ensures
            match r {
                Ok(t) => self.bindings().contains_key(name@) && t@ == self.bindings()[name@],
                Err(e) => !self.bindings().contains_key(name@) && e@ == ErrorView::UnboundVariable(
                    name@,
                ),
            },
    {
        match find(&self.vars, name) {
            Some(t) => Ok(t.clone()),
            None => Err(InferError::UnboundVariable(name.clone())),
        }
    }

    /// A context like this one in which `name` has the type `ty`.
    pub fn with(&self, name: String, ty: Ty) -> (r: Context)
        ensures
            r.bindings() == self.bindings().insert(name@, ty@),
            r.counter() == self.counter(),
    {
        proof {
            use_type_invariant(self);
        }
        let mut vars = duplicate(&self.vars);
        put(&mut vars, name, ty);
        Context { vars, next: self.next }
    }

    /// A context like this one with every type rewritten by `subs`.
    pub fn substitute(&self, subs: &Substitutions) -> (r: Context)
        ensures
            r.bindings() == substituted(self.bindings(), subs@),
            r.counter() == self.counter(),
    {
        proof {
            use_type_invariant(self);
        }
        Context { vars: rewritten(&self.vars, subs), next: self.next }
    }

    /// Moves the counter on past every variable that `scope`, a context derived
    /// from this one, has issued, so that none of them is issued again.
    pub fn catch_up(&mut self, scope: &Context)
        ensures
            final(self).bindings() == old(self).bindings(),
            final(self).counter() == if old(self).counter() <= scope.counter() {
                scope.counter()
            } else {
                old(self).counter()
            },
    {
        proof {
            use_type_invariant(&*self);
        }
        if self.next < scope.next {
            self.next = scope.next;
        }
    }

    /// Issues a type variable whose name no earlier call has issued.
    pub fn fresh_variable(&mut self) -> (r: Ty)
        requires
            old(self).counter() < u64::MAX,
        ensures
            r@ == TyView::Variable(fresh_name(old(self).counter())),
            final(self).counter() == old(self).counter() + 1,
            final(self).bindings() == old(self).bindings(),
    {
        proof {
            use_type_invariant(&*self);
        }
        let mut name = String::from_str("t");
        let digits = decimal_text(self.next);
        name.append(digits.as_str());
        proof {
            reveal_strlit("t");
            assert(name@ =~= fresh_name(self.next as nat));
        }
        self.next = self.next + 1;
        Ty::Variable(name)
    }
}

} // verus!
