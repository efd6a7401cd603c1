use vstd::prelude::*;

use crate::logger::MalLogger;
use crate::types::{
    view_seq, view_val, view_vec, lemma_view_seq, kind_name, ErrVal, EvalError, MalType, Val,
};

verus! {

/// One environment frame: its own bindings and, except for the root, the
/// frame it extends.
pub struct InnerEnv {
    pub data: Vec<(Vec<char>, MalType)>,
    pub outer: Option<usize>,
}

/// A handle to one frame in the interpreter's environment arena.  Frames
/// are shared freely (closures keep handles to the frame they captured), so
/// a handle is just an index; the frames themselves live in `Interp` and
/// are never dropped while the interpreter lives.
#[derive(Clone, Copy, Debug, PartialEq, Eq)]
pub struct Env(pub usize);

/// The interpreter's mutable state: the environment arena, the atom store,
/// and the lines printed so far.
pub struct Interp {
    pub frames: Vec<InnerEnv>,
    pub atoms: Vec<MalType>,
    pub logger: MalLogger,
}

/// Model of one frame.
#[verifier::ext_equal]
pub struct FrameV {
    pub data: Seq<(Seq<char>, Val)>,
    pub outer: Option<int>,
}

/// Model of the whole interpreter state.
#[verifier::ext_equal]
pub struct StateV {
    pub frames: Seq<FrameV>,
    pub atoms: Seq<Val>,
    pub out: Seq<Seq<char>>,
}

/// Model of a frame's binding list.
pub open spec fn view_bindings(s: Seq<(Vec<char>, MalType)>) -> Seq<(Seq<char>, Val)>
    decreases s,
{
    if s.len() == 0 {
        Seq::empty()
    } else {
        seq![(s[0].0@, view_val(s[0].1))] + view_bindings(s.subrange(1, s.len() as int))
    }
}

/// `view_bindings` maps each binding, index by index.
pub broadcast proof fn lemma_view_bindings(s: Seq<(Vec<char>, MalType)>)
    ensures
        (#[trigger] view_bindings(s)).len() == s.len(),
        forall|i: int| 0 <= i < s.len() ==> view_bindings(s)[i] == (s[i].0@, view_val(s[i].1)),
    decreases s.len(),
{
    if s.len() > 0 {
        lemma_view_bindings(s.subrange(1, s.len() as int));
        assert forall|i: int| 0 <= i < s.len() implies view_bindings(s)[i] == (
            s[i].0@,
            view_val(s[i].1),
        ) by {
            if i > 0 {
                assert(s.subrange(1, s.len() as int)[i - 1] == s[i]);
            }
        }
    }
}

/// Model of one frame.
pub open spec fn view_frame(f: InnerEnv) -> FrameV {
    FrameV {
        data: view_bindings(f.data@),
        outer: match f.outer {
            Some(p) => Some(p as int),
            None => None,
        },
    }
}

/// Model of the frame arena.
pub open spec fn view_frames(s: Seq<InnerEnv>) -> Seq<FrameV>
    decreases s,
{
    if s.len() == 0 {
        Seq::empty()
    } else {
        seq![view_frame(s[0])] + view_frames(s.subrange(1, s.len() as int))
    }
}

/// `view_frames` maps each frame, index by index.
pub broadcast proof fn lemma_view_frames(s: Seq<InnerEnv>)
    ensures
        (#[trigger] view_frames(s)).len() == s.len(),
        forall|i: int| 0 <= i < s.len() ==> view_frames(s)[i] == view_frame(s[i]),
    decreases s.len(),
{
    if s.len() > 0 {
        lemma_view_frames(s.subrange(1, s.len() as int));
        assert forall|i: int| 0 <= i < s.len() implies view_frames(s)[i] == view_frame(s[i]) by {
            if i > 0 {
                assert(s.subrange(1, s.len() as int)[i - 1] == s[i]);
            }
        }
    }
}

impl View for Interp {
    type V = StateV;

    open spec fn view(&self) -> StateV {
        StateV {
            frames: view_frames(self.frames@),
            atoms: view_seq(self.atoms@),
            out: self.logger@,
        }
    }
}

/// The value bound under a name in one frame's binding list: the first
/// binding with that name.
pub open spec fn assoc_get(data: Seq<(Seq<char>, Val)>, k: Seq<char>) -> Option<Val>
    decreases data,
{
    if data.len() == 0 {
        None
    } else if data[0].0 == k {
        Some(data[0].1)
    } else {
        assoc_get(data.subrange(1, data.len() as int), k)
    }
}

/// Insert or overwrite a binding: an existing name keeps its place, a new
/// one goes to the end.
pub open spec fn assoc_set(data: Seq<(Seq<char>, Val)>, k: Seq<char>, v: Val) -> Seq<
    (Seq<char>, Val),
>
    decreases data,
{
    if data.len() == 0 {
        seq![(k, v)]
    } else if data[0].0 == k {
        seq![(data[0].0, v)] + data.subrange(1, data.len() as int)
    } else {
        seq![data[0]] + assoc_set(data.subrange(1, data.len() as int), k, v)
    }
}

/// `assoc_get` finds the value at the first index whose name matches.
pub proof fn lemma_assoc_get_at(data: Seq<(Seq<char>, Val)>, k: Seq<char>, i: int)
    requires
        0 <= i < data.len(),
        data[i].0 == k,
        forall|j: int| 0 <= j < i ==> data[j].0 != k,
    ensures
        assoc_get(data, k) == Some(data[i].1),
    decreases data.len(),
{
    if i > 0 {
        let sub = data.subrange(1, data.len() as int);
        assert(forall|j: int| 0 <= j < i - 1 ==> sub[j] == data[j + 1]);
        lemma_assoc_get_at(sub, k, i - 1);
    }
}

/// `assoc_get` misses when no name matches.
pub proof fn lemma_assoc_get_none(data: Seq<(Seq<char>, Val)>, k: Seq<char>)
    requires
        forall|j: int| 0 <= j < data.len() ==> data[j].0 != k,
    ensures
        assoc_get(data, k) is None,
    decreases data.len(),
{
    if data.len() > 0 {
        let sub = data.subrange(1, data.len() as int);
        assert(forall|j: int| 0 <= j < sub.len() ==> sub[j] == data[j + 1]);
        lemma_assoc_get_none(sub, k);
    }
}

/// When the first matching name sits at `i`, `assoc_set` updates in place.
pub proof fn lemma_assoc_set_at(data: Seq<(Seq<char>, Val)>, k: Seq<char>, v: Val, i: int)
    requires
        0 <= i < data.len(),
        data[i].0 == k,
        forall|j: int| 0 <= j < i ==> data[j].0 != k,
    ensures
        assoc_set(data, k, v) == data.update(i, (data[i].0, v)),
    decreases data.len(),
{
    let sub = data.subrange(1, data.len() as int);
    if i == 0 {
        assert(assoc_set(data, k, v) =~= data.update(0, (data[0].0, v)));
    } else {
        assert(forall|j: int| 0 <= j < sub.len() ==> sub[j] == data[j + 1]);
        lemma_assoc_set_at(sub, k, v, i - 1);
        assert(assoc_set(data, k, v) =~= data.update(i, (data[i].0, v)));
    }
}

/// When no name matches, `assoc_set` appends.
pub proof fn lemma_assoc_set_absent(data: Seq<(Seq<char>, Val)>, k: Seq<char>, v: Val)
    requires
        forall|j: int| 0 <= j < data.len() ==> data[j].0 != k,
    ensures
        assoc_set(data, k, v) == data.push((k, v)),
    decreases data.len(),
{
    if data.len() == 0 {
        assert(assoc_set(data, k, v) =~= data.push((k, v)));
    } else {
        let sub = data.subrange(1, data.len() as int);
        assert(forall|j: int| 0 <= j < sub.len() ==> sub[j] == data[j + 1]);
        lemma_assoc_set_absent(sub, k, v);
        assert(assoc_set(data, k, v) =~= data.push((k, v)));
    }
}

/// The frame in which a lookup of `k` starting at frame `e` resolves: the
/// first frame on the parent chain that binds `k`.  A parent index that
/// does not descend (which `new_env` never creates) ends the walk.
pub open spec fn env_find(st: StateV, e: int, k: Seq<char>) -> Option<int>
    decreases e,
{
    if !(0 <= e < st.frames.len()) {
        None
    } else if assoc_get(st.frames[e].data, k) is Some {
        Some(e)
    } else {
        match st.frames[e].outer {
            Some(p) => if 0 <= p < e {
                env_find(st, p, k)
            } else {
                None
            },
            None => None,
        }
    }
}

/// The value a lookup of `k` starting at frame `e` resolves to.
pub open spec fn env_get(st: StateV, e: int, k: Seq<char>) -> Option<Val> {
    match env_find(st, e, k) {
        Some(f) => assoc_get(st.frames[f].data, k),
        None => None,
    }
}

/// A found frame is in range and binds the name.
pub proof fn lemma_env_find_props(st: StateV, e: int, k: Seq<char>)
    ensures
        match env_find(st, e, k) {
            Some(f) => 0 <= f < st.frames.len() && assoc_get(st.frames[f].data, k) is Some,
            None => true,
        },
    decreases e,
{
    if 0 <= e < st.frames.len() && !(assoc_get(st.frames[e].data, k) is Some) {
        match st.frames[e].outer {
            Some(p) => {
                if 0 <= p < e {
                    lemma_env_find_props(st, p, k);
                }
            },
            None => {},
        }
    }
}

/// Binding `k` to `v` in frame `e`: always in that frame itself, shadowing
/// any binding of the same name further out.
pub open spec fn env_set(st: StateV, e: int, k: Seq<char>, v: Val) -> StateV {
    if 0 <= e < st.frames.len() {
        StateV {
            frames: st.frames.update(
                e,
                FrameV { data: assoc_set(st.frames[e].data, k, v), outer: st.frames[e].outer },
            ),
            ..st
        }
    } else {
        st
    }
}

/// A new, empty frame extending `outer`.
pub open spec fn push_frame(st: StateV, outer: Option<int>) -> StateV {
    StateV { frames: st.frames.push(FrameV { data: Seq::empty(), outer }), ..st }
}

/// A new atom holding `v`.
pub open spec fn atoms_push(st: StateV, v: Val) -> StateV {
    StateV { atoms: st.atoms.push(v), ..st }
}

/// The contents of atom `i`.
pub open spec fn atom_load(st: StateV, i: int) -> Option<Val> {
    if 0 <= i < st.atoms.len() {
        Some(st.atoms[i])
    } else {
        None
    }
}

/// Replacing the contents of atom `i`; out-of-range handles change nothing.
pub open spec fn atom_store(st: StateV, i: int, v: Val) -> StateV {
    if 0 <= i < st.atoms.len() {
        StateV { atoms: st.atoms.update(i, v), ..st }
    } else {
        st
    }
}

/// What binding a parameter list to an argument list does: each leading
/// parameter symbol is bound positionally; a parameter that is the symbol
/// `&` makes the next symbol collect the remaining arguments as a list and
/// ends the binding; extra arguments are ignored; exhausting the arguments
/// before the parameters is `WrongArgAmount`; a parameter that is not a
/// symbol is an `InvalidType` failure.
pub open spec fn spec_bind(st: StateV, e: int, params: Seq<Val>, args: Seq<Val>) -> (
    StateV,
    Option<ErrVal>,
)
    decreases params.len(),
{
    if params.len() == 0 {
        (st, None::<ErrVal>)
    } else {
        match params[0] {
            Val::Sym(name) => {
                if name == "&"@ {
                    if params.len() < 2 {
                        (st, Some(ErrVal::WrongArgAmount))
                    } else {
                        match params[1] {
                            Val::Sym(rest_name) => (
                                env_set(st, e, rest_name, Val::List(args)),
                                None::<ErrVal>,
                            ),
                            other => (
                                st,
                                Some(ErrVal::InvalidType("symbol"@, kind_name(other))),
                            ),
                        }
                    }
                } else if args.len() == 0 {
                    (st, Some(ErrVal::WrongArgAmount))
                } else {
                    spec_bind(
                        env_set(st, e, name, args[0]),
                        e,
                        params.subrange(1, params.len() as int),
                        args.subrange(1, args.len() as int),
                    )
                }
            },
            other => (st, Some(ErrVal::InvalidType("symbol"@, kind_name(other)))),
        }
    }
}

/// As `spec_bind`, taking the two lists as values that must each be a list
/// or a vector.
pub open spec fn spec_bind2(st: StateV, e: int, symbols: Val, values: Val) -> (
    StateV,
    Option<ErrVal>,
) {
    match MalType::seq_of(symbols) {
        None => (st, Some(ErrVal::InvalidType("list"@, kind_name(symbols)))),
        Some(ps) => match MalType::seq_of(values) {
            None => (st, Some(ErrVal::InvalidType("list"@, kind_name(values)))),
            Some(vs) => spec_bind(st, e, ps, vs),
        },
    }
}

/// A fresh child frame of `e` with the parameters bound in it; the result
/// carries the new frame's index.
pub open spec fn spec_new_bind(st: StateV, e: int, params: Seq<Val>, args: Seq<Val>) -> (
    StateV,
    Result<int, ErrVal>,
) {
    let idx = st.frames.len() as int;
    let st1 = push_frame(st, Some(e));
    let br = spec_bind(st1, idx, params, args);
    match br.1 {
        None => (br.0, Ok(idx)),
        Some(er) => (br.0, Err(er)),
    }
}

/// The index of the first binding whose name is `k`.
fn assoc_index(data: &Vec<(Vec<char>, MalType)>, k: &Vec<char>) -> (r: Option<usize>)
    ensures
        r matches Some(i) ==> i < data@.len() && data@[i as int].0@ == k@ && (forall|j: int|
            0 <= j < i ==> view_bindings(data@)[j].0 != k@) && assoc_get(view_bindings(data@), k@)
            == Some(view_val(data@[i as int].1)),
        r is None ==> assoc_get(view_bindings(data@), k@) is None && (forall|j: int|
            0 <= j < data@.len() ==> view_bindings(data@)[j].0 != k@),
{
    proof {
        lemma_view_bindings(data@);
    }
    let mut i: usize = 0;
    while i < data.len()
        invariant
            i <= data@.len(),
            forall|j: int| 0 <= j < i ==> data@[j].0@ != k@,
            view_bindings(data@).len() == data@.len(),
            forall|j: int|
                0 <= j < data@.len() ==> view_bindings(data@)[j] == (
                    data@[j].0@,
                    view_val(data@[j].1),
                ),
        decreases data@.len() - i,
    {
        if crate::text::chars_eq(&data[i].0, k) {
            proof {
                lemma_assoc_get_at(view_bindings(data@), k@, i as int);
            }
            return Some(i);
        }
        i = i + 1;
    }
    proof {
        lemma_assoc_get_none(view_bindings(data@), k@);
    }
    None
}

impl Interp {
    /// A fresh interpreter: no frames, no atoms, nothing printed.
    pub fn new() -> (r: Interp)
        ensures
            r@ == (StateV {
                frames: Seq::<FrameV>::empty(),
                atoms: Seq::<Val>::empty(),
                out: Seq::<Seq<char>>::empty(),
            }),
    {
        let r = Interp { frames: Vec::new(), atoms: Vec::new(), logger: crate::logger::init() };
        proof {
            assert(r@ =~= (StateV {
                frames: Seq::<FrameV>::empty(),
                atoms: Seq::<Val>::empty(),
                out: Seq::<Seq<char>>::empty(),
            }));
        }
        r
    }

    /// A new atom cell holding `v`.
    pub fn new_atom(&mut self, v: MalType) -> (a: crate::types::Atom)
        ensures
            final(self)@ == atoms_push(old(self)@, v@),
            a.0 == old(self)@.atoms.len(),
    {
        let idx = self.atoms.len();
        proof {
            lemma_view_seq(self.atoms@);
            lemma_view_seq(self.atoms@.push(v));
        }
        self.atoms.push(v);
        proof {
            assert(view_seq(self.atoms@) =~= view_seq(old(self).atoms@).push(
                view_val(v),
            ));
            assert(self@ =~= atoms_push(old(self)@, v@));
        }
        crate::types::Atom(idx)
    }

    /// The current contents of an atom cell, copied out.
    pub fn atom_get(&self, a: crate::types::Atom) -> (r: Option<MalType>)
        ensures
            match atom_load(self@, a.0 as int) {
                Some(v) => r matches Some(m) && m@ == v,
                None => r is None,
            },
    {
        proof {
            lemma_view_seq(self.atoms@);
        }
        if a.0 < self.atoms.len() {
            Some(self.atoms[a.0].duplicate())
        } else {
            None
        }
    }

    /// Replaces the contents of an atom cell.
    pub fn atom_set(&mut self, a: crate::types::Atom, v: MalType)
        ensures
            final(self)@ == atom_store(old(self)@, a.0 as int, v@),
    {
        proof {
            lemma_view_seq(self.atoms@);
        }
        if a.0 < self.atoms.len() {
            proof {
                lemma_view_seq(self.atoms@.update(a.0 as int, v));
            }
            self.atoms.set(a.0, v);
            proof {
                assert(view_seq(self.atoms@) =~= view_seq(old(self).atoms@).update(
                    a.0 as int,
                    view_val(v),
                ));
                assert(self@ =~= atom_store(old(self)@, a.0 as int, v@));
            }
        }
    }
}

impl Env {
    /// A fresh root environment, with no parent.
    pub fn new(interp: &mut Interp) -> (e: Env)
        ensures
            final(interp)@ == push_frame(old(interp)@, None),
            e.0 == old(interp)@.frames.len(),
    {
        let idx = interp.frames.len();
        let fr = InnerEnv { data: Vec::new(), outer: None };
        proof {
            lemma_view_frames(interp.frames@);
            lemma_view_frames(interp.frames@.push(fr));
        }
        interp.frames.push(fr);
        proof {
            assert(view_frames(interp.frames@) =~= view_frames(old(interp).frames@).push(
                FrameV { data: Seq::empty(), outer: None },
            ));
            assert(interp@ =~= push_frame(old(interp)@, None));
        }
        Env(idx)
    }

    /// A new child environment whose parent is this one.
    pub fn new_env(self, interp: &mut Interp) -> (e: Env)
        ensures
            final(interp)@ == push_frame(old(interp)@, Some(self.0 as int)),
            e.0 == old(interp)@.frames.len(),
    {
        let idx = interp.frames.len();
        let fr = InnerEnv { data: Vec::new(), outer: Some(self.0) };
        proof {
            lemma_view_frames(interp.frames@);
            lemma_view_frames(interp.frames@.push(fr));
        }
        interp.frames.push(fr);
        proof {
            assert(view_frames(interp.frames@) =~= view_frames(old(interp).frames@).push(
                FrameV { data: Seq::empty(), outer: Some(self.0 as int) },
            ));
            assert(interp@ =~= push_frame(old(interp)@, Some(self.0 as int)));
        }
        Env(idx)
    }

    /// Binds `key` to `value` in this frame itself, shadowing outer frames.
    pub fn set(self, interp: &mut Interp, key: Vec<char>, value: MalType)
        ensures
            final(interp)@ == env_set(old(interp)@, self.0 as int, key@, value@),
    {
        proof {
            lemma_view_frames(interp.frames@);
        }
        if self.0 >= interp.frames.len() {
            return ;
        }
        let mut fr = InnerEnv { data: Vec::new(), outer: None };
        interp.frames.set_and_swap(self.0, &mut fr);
        let ghost old_data = fr.data@;
        let ghost old_outer = fr.outer;
        match assoc_index(&fr.data, &key) {
            Some(i) => {
                proof {
                    lemma_view_bindings(old_data);
                    lemma_assoc_set_at(view_bindings(old_data), key@, value@, i as int);
                }
                fr.data.set(i, (key, value));
            },
            None => {
                proof {
                    lemma_view_bindings(old_data);
                    lemma_assoc_set_absent(view_bindings(old_data), key@, value@);
                }
                fr.data.push((key, value));
            },
        }
        proof {
            lemma_view_bindings(fr.data@);
            assert(view_bindings(fr.data@) =~= assoc_set(view_bindings(old_data), key@, value@));
        }
        interp.frames.set(self.0, fr);
        proof {
            lemma_view_frames(interp.frames@);
            assert(view_frames(interp.frames@) =~= view_frames(old(interp).frames@).update(
                self.0 as int,
                FrameV {
                    data: assoc_set(view_bindings(old_data), key@, value@),
                    outer: view_frame(old(interp).frames@[self.0 as int]).outer,
                },
            ));
            assert(interp@ =~= env_set(old(interp)@, self.0 as int, key@, value@));
        }
    }

    /// The frame on the parent chain in which `key` resolves.
    pub fn find(self, interp: &Interp, key: &Vec<char>) -> (r: Option<Env>)
        ensures
            match env_find(interp@, self.0 as int, key@) {
                Some(f) => r matches Some(e) && e.0 == f,
                None => r is None,
            },
    {
        proof {
            lemma_view_frames(interp.frames@);
        }
        let mut cur: usize = self.0;
        loop
            invariant
                env_find(interp@, self.0 as int, key@) == env_find(interp@, cur as int, key@),
                view_frames(interp.frames@).len() == interp.frames@.len(),
                forall|i: int|
                    0 <= i < interp.frames@.len() ==> view_frames(interp.frames@)[i] == view_frame(
                        interp.frames@[i],
                    ),
            decreases cur,
        {
            if cur >= interp.frames.len() {
                return None;
            }
            if assoc_index(&interp.frames[cur].data, key).is_some() {
                return Some(Env(cur));
            }
            match interp.frames[cur].outer {
                Some(p) => {
                    if p < cur {
                        cur = p;
                    } else {
                        return None;
                    }
                },
                None => {
                    return None;
                },
            }
        }
    }

    /// Binds each parameter symbol in turn: a parameter named `&` makes the
    /// following symbol collect the remaining arguments as a list, and
    /// binding stops there; extra arguments beyond the parameters are
    /// ignored; running out of arguments first is `WrongArgAmount`.
    #[verifier::loop_isolation(false)]
    pub fn bind(self, interp: &mut Interp, symbols: &Vec<MalType>, values: Vec<MalType>) -> (r:
        Result<(), EvalError>)
        ensures
            ({
                let sr = spec_bind(
                    old(interp)@,
                    self.0 as int,
                    view_vec(*symbols),
                    view_vec(values),
                );
                final(interp)@ == sr.0 && (match r {
                    Ok(_) => sr.1 is None,
                    Err(e) => sr.1 == Some(e@),
                })
            }),
    {
        proof {
            lemma_view_seq(symbols@);
        }
        let ghost pv = view_seq(symbols@);
        let ghost av0 = view_seq(values@);
        proof {
            assert(pv.skip(0) =~= pv);
        }
        let mut values = values;
        let mut i: usize = 0;
        while i < symbols.len()
            invariant
                i <= symbols@.len(),
                pv == view_seq(symbols@),
                pv.len() == symbols@.len(),
                forall|j: int| 0 <= j < symbols@.len() ==> pv[j] == view_val(symbols@[j]),
                spec_bind(old(interp)@, self.0 as int, pv, av0) == spec_bind(
                    interp@,
                    self.0 as int,
                    pv.skip(i as int),
                    view_seq(values@),
                ),
            decreases symbols@.len() - i,
        {
            proof {
                lemma_view_seq(values@);
                assert(pv.skip(i as int)[0] == pv[i as int]);
            }
            match &symbols[i] {
                MalType::Symbol(name) => {
                    if crate::text::sym_is(name, "&") {
                        if i + 1 >= symbols.len() {
                            return Err(EvalError::WrongArgAmount);
                        }
                        proof {
                            assert(pv.skip(i as int)[1] == pv[i as int + 1]);
                        }
                        match &symbols[i + 1] {
                            MalType::Symbol(rest_name) => {
                                let ghost st_pre = interp@;
                                let ghost av_cur = view_seq(values@);
                                let rest = crate::text::dup_chars(rest_name);
                                let lst = MalType::list_of(values);
                                proof {
                                    assert(symbols@[i as int + 1] == MalType::Symbol(*rest_name));
                                    assert(pv.skip(i as int)[1] == Val::Sym(rest_name@));
                                    assert(lst@ == Val::List(av_cur));
                                    assert(spec_bind(
                                        st_pre,
                                        self.0 as int,
                                        pv.skip(i as int),
                                        av_cur,
                                    ) == (
                                        env_set(st_pre, self.0 as int, rest_name@, Val::List(av_cur)),
                                        None::<ErrVal>,
                                    ));
                                }
                                self.set(interp, rest, lst);
                                return Ok(());
                            },
                            other => {
                                return Err(other.type_error("symbol"));
                            },
                        }
                    } else if values.len() == 0 {
                        return Err(EvalError::WrongArgAmount);
                    } else {
                        let key = crate::text::dup_chars(name);
                        let ghost vs_before = values@;
                        let v = values.remove(0);
                        proof {
                            assert(values@ =~= vs_before.subrange(1, vs_before.len() as int));
                            lemma_view_seq(vs_before);
                            lemma_view_seq(values@);
                            assert(view_seq(values@) =~= view_seq(vs_before).subrange(
                                1,
                                view_seq(vs_before).len() as int,
                            ));
                            assert(pv.skip(i as int).subrange(
                                1,
                                pv.skip(i as int).len() as int,
                            ) =~= pv.skip(i as int + 1));
                        }
                        self.set(interp, key, v);
                        i = i + 1;
                    }
                },
                other => {
                    return Err(other.type_error("symbol"));
                },
            }
        }
        proof {
            assert(pv.skip(i as int) =~= Seq::<Val>::empty());
        }
        Ok(())
    }

    /// As `bind`, with the parameter list and the argument list given as
    /// values that must each be a list or a vector.
    pub fn bind2(self, interp: &mut Interp, symbols: MalType, values: MalType) -> (r: Result<
        (),
        EvalError,
    >)
        ensures
            ({
                let sr = spec_bind2(old(interp)@, self.0 as int, symbols@, values@);
                final(interp)@ == sr.0 && (match r {
                    Ok(_) => sr.1 is None,
                    Err(e) => sr.1 == Some(e@),
                })
            }),
    {
        let symbols = match symbols.to_list() {
            Ok(l) => l,
            Err(e) => {
                return Err(e);
            },
        };
        let values = match values.to_list() {
            Ok(l) => l,
            Err(e) => {
                return Err(e);
            },
        };
        self.bind(interp, &symbols, values)
    }

    /// A new child environment with the parameters bound to the arguments.
    /// On a binding failure the fresh frame stays in the arena, unused.
    pub fn new_bind(self, interp: &mut Interp, symbols: &Vec<MalType>, values: Vec<MalType>) -> (r:
        Result<Env, EvalError>)
        ensures
            ({
                let sr = spec_new_bind(
                    old(interp)@,
                    self.0 as int,
                    view_vec(*symbols),
                    view_vec(values),
                );
                final(interp)@ == sr.0 && (match r {
                    Ok(e) => sr.1 == Ok::<int, ErrVal>(e.0 as int),
                    Err(e) => sr.1 == Err::<int, ErrVal>(e@),
                })
            }),
    {
        let new_env = self.new_env(interp);
        match new_env.bind(interp, symbols, values) {
            Ok(_) => Ok(new_env),
            Err(e) => Err(e),
        }
    }

    /// The value `key` resolves to on the parent chain, copied out.
    pub fn get(self, interp: &Interp, key: &Vec<char>) -> (r: Option<MalType>)
        ensures
            match env_get(interp@, self.0 as int, key@) {
                Some(v) => r matches Some(m) && m@ == v,
                None => r is None,
            },
    {
        proof {
            lemma_env_find_props(interp@, self.0 as int, key@);
            lemma_view_frames(interp.frames@);
        }
        match self.find(interp, key) {
            None => None,
            Some(e) => {
                match assoc_index(&interp.frames[e.0].data, key) {
                    Some(i) => Some(interp.frames[e.0].data[i].1.duplicate()),
                    None => unreached(),
                }
            },
        }
    }
}

impl MalType {
    /// A fresh atom cell holding this value.
    pub fn to_atom_value(self, interp: &mut Interp) -> (a: crate::types::Atom)
        ensures
            final(interp)@ == atoms_push(old(interp)@, self@),
            a.0 == old(interp)@.atoms.len(),
    {
        interp.new_atom(self)
    }

    /// A fresh atom cell holding this value, as a value.
    pub fn to_atom_mal_type(self, interp: &mut Interp) -> (r: MalType)
        ensures
            final(interp)@ == atoms_push(old(interp)@, self@),
            r@ == Val::Atom(old(interp)@.atoms.len() as int),
    {
        MalType::Atom(self.to_atom_value(interp))
    }

    /// The current contents of this value, which must be an atom.
    pub fn to_atom_inner(self, interp: &Interp) -> (r: crate::types::EvalResult)
        ensures
            ({
                match self@ {
                    Val::Atom(i) => match atom_load(interp@, i) {
                        Some(v) => r matches Ok(m) && m@ == v,
                        None => r matches Err(e) && e@ == ErrVal::InvalidType("Atom"@, "atom"@),
                    },
                    _ => r matches Err(e) && e@ == ErrVal::InvalidType("Atom"@, kind_name(self@)),
                }
            }),
    {
        match self.to_atom() {
            Ok(a) => match interp.atom_get(a) {
                Some(m) => Ok(m),
                None => Err(EvalError::InvalidType(
                    crate::text::chars_of("Atom"),
                    crate::text::chars_of("atom"),
                )),
            },
            Err(e) => Err(e),
        }
    }
}

impl crate::types::Atom {
    /// The current contents of the cell this handle names, copied out.
    pub fn get_value(self, interp: &Interp) -> (r: Option<MalType>)
        ensures
            match atom_load(interp@, self.0 as int) {
                Some(v) => r matches Some(m) && m@ == v,
                None => r is None,
            },
    {
        interp.atom_get(self)
    }
}

} // verus!
