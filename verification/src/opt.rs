use vstd::prelude::*;

verus! {

/// One option of the generator's command line.
#[derive(Debug)]
pub enum Opt {
    Silent,
    Execute(String),
    Output(String),
    NoHash,
}

/// The mathematical value of an [`Opt`]: the same variant, with text as a sequence of characters.
pub enum OptV {
    Silent,
    Execute(Seq<char>),
    Output(Seq<char>),
    NoHash,
}

impl View for Opt {
    type V = OptV;

    open spec fn view(&self) -> OptV {
        match self {
            Opt::Silent => OptV::Silent,
            Opt::Execute(s) => OptV::Execute(s@),
            Opt::Output(s) => OptV::Output(s@),
            Opt::NoHash => OptV::NoHash,
        }
    }
}

impl PartialEq for Opt {
    fn eq(&self, other: &Self) -> (r: bool) {
        match (self, other) {
            (Opt::Silent, Opt::Silent) => true,
            (Opt::NoHash, Opt::NoHash) => true,
            (Opt::Execute(a), Opt::Execute(b)) => a.eq(b),
            (Opt::Output(a), Opt::Output(b)) => a.eq(b),
            _ => false,
        }
    }
}

impl Eq for Opt {}

impl Clone for Opt {
    fn clone(&self) -> (r: Self)
        ensures
            r@ == self@,
    {
        match self {
            Opt::Silent => Opt::Silent,
            Opt::Execute(s) => Opt::Execute(s.clone()),
            Opt::Output(s) => Opt::Output(s.clone()),
            Opt::NoHash => Opt::NoHash,
        }
    }
}

impl vstd::std_specs::cmp::PartialEqSpecImpl for Opt {
    open spec fn obeys_eq_spec() -> bool {
        true
    }

    open spec fn eq_spec(&self, other: &Opt) -> bool {
        self@ == other@
    }
}


/// A set of options: each option occurs at most once, in the order in which it was first added.
#[derive(Debug)]
pub struct Options {
    opts: Vec<Opt>,
}

/// `s` with `o` added at the end unless it already occurs in it.
pub open spec fn seq_add(s: Seq<OptV>, o: OptV) -> Seq<OptV> {
    if s.contains(o) {
        s
    } else {
        s.push(o)
    }
}

/// The options of a sequence, by their values.
pub open spec fn opt_values(s: Seq<Opt>) -> Seq<OptV> {
    s.map_values(|o: Opt| o@)
}

impl Options {
    /// The options held, in the order in which they were first added.
    pub closed spec fn elems(&self) -> Seq<Opt> {
        self.opts@
    }

    #[verifier::type_invariant]
    spec fn wf(&self) -> bool {
        opt_values(self.opts@).no_duplicates()
    }
}

impl View for Options {
    type V = Set<OptV>;

    open spec fn view(&self) -> Set<OptV> {
        opt_values(self.elems()).to_set()
    }
}

impl Options {
    /// The empty option set.
    pub fn new() -> (r: Self)
        ensures
            r@ == Set::<OptV>::empty(),
            r.elems().len() == 0,
    {
        let r = Options { opts: Vec::new() };
        assert(opt_values(r.elems()) =~= Seq::<OptV>::empty());
        r
    }

    /// Whether an option with the value of `opt` is in the set.
    pub fn has_tag(&self, opt: &Opt) -> (r: bool)
        ensures
            r == self@.contains(opt@),
    {
        let mut i: usize = 0;
        while i < self.opts.len()
            invariant
                i <= self.opts@.len(),
                forall|j: int| 0 <= j < i ==> self.opts@[j]@ != opt@,
            decreases self.opts@.len() - i,
        {
            if self.opts[i].eq(opt) {
                assert(opt_values(self.elems())[i as int] == opt@);
                return true;
            }
            i = i + 1;
        }
        assert(!opt_values(self.elems()).contains(opt@));
        false
    }

    /// Adds `opt` unless an equal option is already present.
    pub fn insert(&mut self, opt: Opt)
        ensures
            final(self)@ == old(self)@.insert(opt@),
            old(self)@.contains(opt@) ==> final(self).elems() == old(self).elems(),
            !old(self)@.contains(opt@) ==> final(self).elems() == old(self).elems().push(opt),
            opt_values(final(self).elems()) == seq_add(opt_values(old(self).elems()), opt@),
    {
        proof { use_type_invariant(&*self); }
        if !self.has_tag(&opt) {
            proof {
                assert(opt_values(self.opts@.push(opt)) =~= opt_values(self.opts@).push(opt@));
                assert(!opt_values(self.opts@).contains(opt@));
            }
            let mut opts: Vec<Opt> = Vec::new();
            std::mem::swap(&mut opts, &mut self.opts);
            opts.push(opt);
            self.opts = opts;
            proof {
                opt_values(old(self).opts@).lemma_push_to_set_commute(opt@);
            }
        } else {
            assert(old(self)@.insert(opt@) =~= old(self)@);
        }
    }
}


impl Options {
    /// Adds every option of `other` that is not yet present, in `other`'s order.
    pub fn extend(&mut self, other: Options)
        ensures
            final(self)@ == old(self)@.union(other@),
    {
        let mut rest = other.into_vec();
        let ghost all = rest@;
        let mut i: usize = 0;
        while i < rest.len()
            invariant
                all == rest@,
                i <= rest@.len(),
                self@ == old(self)@.union(opt_values(all.take(i as int)).to_set()),
            decreases rest@.len() - i,
        {
            let o = rest[i].clone();
            self.insert(o);
            proof {
                assert(all.take(i + 1) =~= all.take(i as int).push(all[i as int]));
                assert(opt_values(all.take(i + 1)) =~= opt_values(all.take(i as int)).push(all[i as int]@));
                opt_values(all.take(i as int)).lemma_push_to_set_commute(all[i as int]@);
            }
            i = i + 1;
        }
        assert(all.take(i as int) =~= all);
        assert(old(self)@.union(other@) =~= self@);
    }

    /// The set of the options of `v`; of equal options only the first is kept.
    pub fn from_vec(v: Vec<Opt>) -> (r: Self)
        ensures
            r@ == opt_values(v@).to_set(),
    {
        let mut r = Options::new();
        let mut i: usize = 0;
        while i < v.len()
            invariant
                i <= v@.len(),
                r@ == opt_values(v@.take(i as int)).to_set(),
            decreases v@.len() - i,
        {
            let o = v[i].clone();
            r.insert(o);
            proof {
                assert(v@.take(i + 1) =~= v@.take(i as int).push(v@[i as int]));
                assert(opt_values(v@.take(i + 1)) =~= opt_values(v@.take(i as int)).push(v@[i as int]@));
                opt_values(v@.take(i as int)).lemma_push_to_set_commute(v@[i as int]@);
            }
            i = i + 1;
        }
        assert(v@.take(i as int) =~= v@);
        r
    }

    /// The options, each once, in the order in which they were first added.
    pub fn into_vec(self) -> (r: Vec<Opt>)
        ensures
            r@ == self.elems(),
            opt_values(r@).no_duplicates(),
            opt_values(r@).to_set() == self@,
    {
        proof { use_type_invariant(&self); }
        self.opts
    }

    /// Whether every option of `other` is in the set.
    pub fn has_all(&self, other: &Options) -> (r: bool)
        ensures
            r == other@.subset_of(self@),
    {
        let mut i: usize = 0;
        while i < other.opts.len()
            invariant
                i <= other.opts@.len(),
                forall|j: int| 0 <= j < i ==> self@.contains(#[trigger] other.opts@[j]@),
            decreases other.opts@.len() - i,
        {
            if !self.has_tag(&other.opts[i]) {
                assert(opt_values(other.elems())[i as int] == other.opts@[i as int]@);
                return false;
            }
            i = i + 1;
        }
        assert forall|x: OptV| other@.contains(x) implies self@.contains(x) by {
            let k = choose|k: int| 0 <= k < opt_values(other.elems()).len() && opt_values(other.elems())[k] == x;
            assert(other.opts@[k]@ == x);
        }
        true
    }

    /// The first option, in the order in which options were added, of which `pred`
    /// gives `Some`, and that value; `None` when `pred` gives `None` on every option.
    pub fn find<'a, T, F>(&'a self, pred: F) -> (r: Option<T>)
        where
            F: Fn(&'a Opt) -> Option<T>,
        requires
            forall|o: &'a Opt| #[trigger] pred.requires((o,)),
        ensures
            r is None ==> forall|i: int| 0 <= i < self.elems().len()
                ==> #[trigger] pred.ensures((&self.elems()[i],), None),
            r matches Some(t) ==> exists|i: int| 0 <= i < self.elems().len()
                && #[trigger] pred.ensures((&self.elems()[i],), Some(t))
                && forall|j: int| 0 <= j < i ==> pred.ensures((&self.elems()[j],), None),
    {
        let mut i: usize = 0;
        while i < self.opts.len()
            invariant
                i <= self.opts@.len(),
                forall|o: &'a Opt| #[trigger] pred.requires((o,)),
                forall|j: int| 0 <= j < i ==> #[trigger] pred.ensures((&self.opts@[j],), None),
            decreases self.opts@.len() - i,
        {
            let ret = pred(&self.opts[i]);
            match ret {
                Some(t) => {
                    assert(pred.ensures((&self.elems()[i as int],), Some(t)));
                    return Some(t);
                },
                None => {},
            }
            i = i + 1;
        }
        None
    }
}

impl Opt {
    /// The set of two options.
    pub fn pair(self, other: Opt) -> (r: Options)
        ensures
            r@ == set![self@, other@],
    {
        let ghost a = self@;
        let ghost b = other@;
        let mut r = Options::new();
        r.insert(self);
        r.insert(other);
        assert(r@ =~= set![a, b]);
        r
    }
}

// opts |= opt
impl core::ops::BitOrAssign<Opt> for Options {
    fn bitor_assign(&mut self, rhs: Opt)
        ensures
            final(self)@ == old(self)@.insert(rhs@),
    {
        self.insert(rhs)
    }
}


// opts |= other_opts
impl core::ops::BitOrAssign for Options {
    fn bitor_assign(&mut self, other: Self)
        ensures
            final(self)@ == old(self)@.union(other@),
    {
        self.extend(other)
    }
}

// opt1 | opt2
impl core::ops::BitOr for Opt {
    type Output = Options;

    fn bitor(self, other: Self) -> (r: Options)
        ensures
            r@ == set![self@, other@],
    {
        self.pair(other)
    }
}

impl vstd::std_specs::ops::BitOrSpecImpl for Opt {
    /// The result is an option set, which a spec function cannot build: the
    /// contract of `bitor` above states it instead.
    open spec fn obeys_bitor_spec() -> bool {
        false
    }

    open spec fn bitor_req(self, rhs: Opt) -> bool {
        true
    }

    open spec fn bitor_spec(self, rhs: Opt) -> Options {
        arbitrary()
    }
}

// opts & opt
impl core::ops::BitAnd<Opt> for Options {
    type Output = bool;

    fn bitand(self, other: Opt) -> (r: bool)
        ensures
            r == self@.contains(other@),
    {
        self.has_tag(&other)
    }
}

impl vstd::std_specs::ops::BitAndSpecImpl<Opt> for Options {
    open spec fn obeys_bitand_spec() -> bool {
        true
    }

    open spec fn bitand_req(self, rhs: Opt) -> bool {
        true
    }

    open spec fn bitand_spec(self, rhs: Opt) -> bool {
        self@.contains(rhs@)
    }
}

// opts & other_opts
impl core::ops::BitAnd for Options {
    type Output = bool;

    fn bitand(self, other: Self) -> (r: bool)
        ensures
            r == other@.subset_of(self@),
    {
        self.has_all(&other)
    }
}

impl vstd::std_specs::ops::BitAndSpecImpl for Options {
    open spec fn obeys_bitand_spec() -> bool {
        true
    }

    open spec fn bitand_req(self, rhs: Options) -> bool {
        true
    }

    open spec fn bitand_spec(self, rhs: Options) -> bool {
        rhs@.subset_of(self@)
    }
}

impl From<Vec<Opt>> for Options {
    fn from(other: Vec<Opt>) -> (r: Self)
        ensures
            r@ == opt_values(other@).to_set(),
    {
        Options::from_vec(other)
    }
}

impl vstd::std_specs::convert::FromSpecImpl<Vec<Opt>> for Options {
    /// The result is an option set, which a spec function cannot build: the
    /// contract of `from` above states it instead.
    open spec fn obeys_from_spec() -> bool {
        false
    }

    open spec fn from_spec(v: Vec<Opt>) -> Options {
        arbitrary()
    }
}

impl From<Options> for Vec<Opt> {
    fn from(other: Options) -> (r: Vec<Opt>)
        ensures
            r@ == other.elems(),
            opt_values(r@).no_duplicates(),
            opt_values(r@).to_set() == other@,
    {
        other.into_vec()
    }
}

impl vstd::std_specs::convert::FromSpecImpl<Options> for Vec<Opt> {
    /// The contract of `from` above states the result.
    open spec fn obeys_from_spec() -> bool {
        false
    }

    open spec fn from_spec(v: Options) -> Vec<Opt> {
        arbitrary()
    }
}


impl IntoIterator for Options {
    type Item = Opt;
    type IntoIter = std::vec::IntoIter<Opt>;

    fn into_iter(self) -> (r: Self::IntoIter)
        ensures
            vstd::std_specs::iter::IteratorSpec::remaining(&r) == self.elems(),
    {
        broadcast use vstd::std_specs::vec::axiom_spec_into_iter;
        self.into_vec().into_iter()
    }
}

impl Clone for Options {
    fn clone(&self) -> (r: Self)
        ensures
            r@ == self@,
            opt_values(r.elems()) == opt_values(self.elems()),
    {
        proof { use_type_invariant(self); }
        let mut opts: Vec<Opt> = Vec::new();
        let mut i: usize = 0;
        while i < self.opts.len()
            invariant
                i <= self.opts@.len(),
                opt_values(opts@) == opt_values(self.opts@.take(i as int)),
            decreases self.opts@.len() - i,
        {
            let o = self.opts[i].clone();
            proof {
                assert(self.opts@.take(i + 1) =~= self.opts@.take(i as int).push(self.opts@[i as int]));
            }
            let ghost before = opts@;
            assert(o@ == self.opts@[i as int]@);
            opts.push(o);
            assert(opt_values(opts@) =~= opt_values(before).push(self.opts@[i as int]@));
            assert(opt_values(self.opts@.take(i + 1)) =~= opt_values(self.opts@.take(i as int)).push(self.opts@[i as int]@));
            i = i + 1;
        }
        assert(self.opts@.take(i as int) =~= self.opts@);
        Options { opts }
    }
}

impl PartialEq for Options {
    fn eq(&self, other: &Self) -> (r: bool) {
        let a = self.has_all(other);
        let b = other.has_all(self);
        proof {
            if a && b {
                assert(self@ =~= other@);
            }
        }
        a && b
    }
}

impl Eq for Options {}

impl vstd::std_specs::cmp::PartialEqSpecImpl for Options {
    open spec fn obeys_eq_spec() -> bool {
        true
    }

    open spec fn eq_spec(&self, other: &Options) -> bool {
        self@ == other@
    }
}

/// Adding an option that is already in the set changes nothing.
pub proof fn law_insert_idempotent(s: Set<OptV>, o: OptV)
    ensures
        s.insert(o).insert(o) == s.insert(o),
{
    assert(s.insert(o).insert(o) =~= s.insert(o));
}

/// The order in which options are added does not matter.
pub proof fn law_insert_commutes(s: Set<OptV>, a: OptV, b: OptV)
    ensures
        s.insert(a).insert(b) == s.insert(b).insert(a),
{
    assert(s.insert(a).insert(b) =~= s.insert(b).insert(a));
}

/// Joining option sets is what adding each option of the second set does: after
/// `a |= b`, every option of either set is present, and every present option came from one.
pub proof fn law_union_members(a: Set<OptV>, b: Set<OptV>, o: OptV)
    ensures
        a.union(b).contains(o) <==> a.contains(o) || b.contains(o),
{
}

/// A set includes itself, and `a & b` holds for the join of `a` with any `b`.
pub proof fn law_union_includes(a: Set<OptV>, b: Set<OptV>)
    ensures
        a.subset_of(a),
        b.subset_of(a.union(b)),
        a.subset_of(a.union(b)),
{
}

/// Turning a set into its options and back gives the same set.
pub proof fn law_vec_roundtrip(o: &Options, v: Seq<Opt>)
    requires
        v == o.elems(),
    ensures
        opt_values(v).to_set() == o@,
{
}

} // verus!
