//! The couplings of a coupled model: the edges along which messages travel
//! between the model's own ports and the ports of its children.

use vstd::prelude::*;

verus! {

/// One end of a coupling: a port, and the model that it belongs to. The
/// model is a child, by its name, or the coupled model itself, for which
/// no name is given.
#[derive(Debug, Clone)]
pub struct Endpoint {
    pub model: Option<String>,
    pub port: String,
}

/// An end of a coupling as contracts speak of it.
pub struct EndpointView {
    pub model: Option<Seq<char>>,
    pub port: Seq<char>,
}

impl View for Endpoint {
    type V = EndpointView;

    open spec fn view(&self) -> EndpointView {
        EndpointView {
            model: match self.model {
                Some(name) => Some(name@),
                None => None,
            },
            port: self.port@,
        }
    }
}

/// An edge from one port to another. A message that leaves `from` arrives
/// at `to`.
///
/// An external input coupling leads from a port of the coupled model to a
/// port of a child, an internal coupling from a child to a child, and an
/// external output coupling from a child to a port of the coupled model.
#[derive(Debug, Clone)]
pub struct Coupling {
    pub from: Endpoint,
    pub to: Endpoint,
}

/// A coupling as contracts speak of it.
pub struct CouplingView {
    pub from: EndpointView,
    pub to: EndpointView,
}

impl View for Coupling {
    type V = CouplingView;

    open spec fn view(&self) -> CouplingView {
        CouplingView { from: self.from@, to: self.to@ }
    }
}

/// The couplings of a list, each by its view.
pub open spec fn couplings_view(couplings: Seq<Coupling>) -> Seq<CouplingView> {
    Seq::new(couplings.len(), |i: int| couplings[i]@)
}

/// The coupling from a port of the coupled model to a port of a child.
pub open spec fn input_edge(port: Seq<char>, child: Seq<char>, child_port: Seq<char>) -> CouplingView {
    CouplingView {
        from: EndpointView { model: None, port },
        to: EndpointView { model: Some(child), port: child_port },
    }
}

/// The coupling from a port of one child to a port of another.
pub open spec fn internal_edge(
    source: Seq<char>,
    source_port: Seq<char>,
    child: Seq<char>,
    child_port: Seq<char>,
) -> CouplingView {
    CouplingView {
        from: EndpointView { model: Some(source), port: source_port },
        to: EndpointView { model: Some(child), port: child_port },
    }
}

/// The coupling from a port of a child to a port of the coupled model.
pub open spec fn output_edge(source: Seq<char>, source_port: Seq<char>, port: Seq<char>) -> CouplingView {
    CouplingView {
        from: EndpointView { model: Some(source), port: source_port },
        to: EndpointView { model: None, port },
    }
}

/// Whether two optional names are the same text, or both missing.
pub fn same_owner(a: &Option<String>, b: &Option<String>) -> (same: bool)
    ensures
        same == (match (*a, *b) {
            (Some(x), Some(y)) => x@ == y@,
            (None, None) => true,
            _ => false,
        }),
{
    match (a, b) {
        (Some(x), Some(y)) => *x == *y,
        (None, None) => true,
        _ => false,
    }
}

impl Endpoint {
    /// The port `port` of the coupled model itself.
    pub fn own(port: &str) -> (end: Endpoint)
        ensures
            end@ == (EndpointView { model: None, port: port@ }),
    {
        Endpoint { model: None, port: port.to_owned() }
    }

    /// The port `port` of the child `child`.
    pub fn of_child(child: &str, port: &str) -> (end: Endpoint)
        ensures
            end@ == (EndpointView { model: Some(child@), port: port@ }),
    {
        Endpoint { model: Some(child.to_owned()), port: port.to_owned() }
    }

    /// Whether two ends are the same port of the same model.
    pub fn same(&self, other: &Endpoint) -> (same: bool)
        ensures
            same == (self@ == other@),
    {
        same_owner(&self.model, &other.model) && self.port == other.port
    }

    /// Whether the end lies on the model `owner` and on the port `port`.
    pub fn is_at(&self, owner: &Option<String>, port: &String) -> (at: bool)
        ensures
            at == (self@.port == port@ && self@.model == match *owner {
                Some(name) => Some(name@),
                None => None::<Seq<char>>,
            }),
    {
        same_owner(&self.model, owner) && self.port == *port
    }
}

impl Coupling {
    /// Whether two couplings join the same ends.
    pub fn same(&self, other: &Coupling) -> (same: bool)
        ensures
            same == (self@ == other@),
    {
        self.from.same(&other.from) && self.to.same(&other.to)
    }
}

/// Whether `coupling` is among `couplings`.
pub fn holds_coupling(couplings: &Vec<Coupling>, coupling: &Coupling) -> (found: bool)
    ensures
        found == couplings_view(couplings@).contains(coupling@),
{
    let mut i: usize = 0;
    while i < couplings.len()
        invariant
            i <= couplings@.len(),
            forall|k: int| 0 <= k < i ==> couplings@[k]@ != coupling@,
        decreases couplings@.len() - i,
    {
        if couplings[i].same(coupling) {
            proof {
                assert(couplings_view(couplings@)[i as int] == coupling@);
            }
            return true;
        }
        i += 1;
    }
    proof {
        let view = couplings_view(couplings@);
        assert forall|k: int| 0 <= k < view.len() implies view[k] != coupling@ by {
            assert(view[k] == couplings@[k]@);
        }
    }
    false
}

/// The couplings of `couplings` without what comes a second time: each
/// coupling stays where it first stood.
pub open spec fn without_repeats(couplings: Seq<CouplingView>) -> Seq<CouplingView>
    decreases couplings.len(),
{
    if couplings.len() == 0 {
        Seq::empty()
    } else {
        let before = without_repeats(couplings.drop_last());
        if before.contains(couplings.last()) {
            before
        } else {
            before.push(couplings.last())
        }
    }
}

/// Whether no coupling comes twice.
pub open spec fn no_repeats(couplings: Seq<CouplingView>) -> bool {
    forall|i: int, j: int| 0 <= i < j < couplings.len() ==> couplings[i] != couplings[j]
}

/// What `without_repeats` gives holds the same couplings, none of them
/// twice.
pub proof fn without_repeats_is_a_set(couplings: Seq<CouplingView>)
    ensures
        no_repeats(without_repeats(couplings)),
        forall|c: CouplingView| #[trigger]
            without_repeats(couplings).contains(c) ==> couplings.contains(c),
        forall|c: CouplingView| #[trigger]
            couplings.contains(c) ==> without_repeats(couplings).contains(c),
    decreases couplings.len(),
{
    if couplings.len() > 0 {
        let front = couplings.drop_last();
        let last = couplings.last();
        without_repeats_is_a_set(front);
        let before = without_repeats(front);
        let after = without_repeats(couplings);
        assert forall|c: CouplingView| #[trigger] after.contains(c) implies couplings.contains(
            c,
        ) by {
            {
                let k = choose|k: int| 0 <= k < after.len() && after[k] == c;
                if k < before.len() {
                    assert(before[k] == c);
                    assert(before.contains(c));
                    let m = choose|m: int| 0 <= m < front.len() && front[m] == c;
                    assert(couplings[m] == c);
                } else {
                    assert(c == last);
                    assert(couplings[couplings.len() - 1] == c);
                }
            }
        }
        assert forall|c: CouplingView| #[trigger] couplings.contains(c) implies after.contains(
            c,
        ) by {
            {
                let m = choose|m: int| 0 <= m < couplings.len() && couplings[m] == c;
                if m < front.len() {
                    assert(front[m] == c);
                    assert(front.contains(c));
                    let k = choose|k: int| 0 <= k < before.len() && before[k] == c;
                    assert(after[k] == c);
                } else {
                    if before.contains(last) {
                    } else {
                        assert(after[after.len() - 1] == c);
                    }
                }
            }
        }
    }
}

/// A list that repeats nothing is what `without_repeats` gives for it.
pub proof fn no_repeats_are_kept(couplings: Seq<CouplingView>)
    requires
        no_repeats(couplings),
    ensures
        without_repeats(couplings) == couplings,
    decreases couplings.len(),
{
    if couplings.len() > 0 {
        let front = couplings.drop_last();
        assert(no_repeats(front)) by {
            assert forall|i: int, j: int| 0 <= i < j < front.len() implies front[i] != front[j] by {
                assert(couplings[i] != couplings[j]);
            }
        }
        no_repeats_are_kept(front);
        if front.contains(couplings.last()) {
            let k = choose|k: int| 0 <= k < front.len() && front[k] == couplings.last();
            assert(couplings[k] != couplings[couplings.len() - 1]);
        }
        assert(front.push(couplings.last()) =~= couplings);
    } else {
        assert(couplings =~= Seq::empty());
    }
}

/// The couplings of `couplings` without what comes a second time.
pub fn unique_couplings(couplings: Vec<Coupling>) -> (unique: Vec<Coupling>)
    ensures
        couplings_view(unique@) == without_repeats(couplings_view(couplings@)),
{
    let ghost all = couplings_view(couplings@);
    let mut unique: Vec<Coupling> = Vec::new();
    for coupling in iter: couplings
        invariant
            iter.seq() == couplings@,
            all == couplings_view(couplings@),
            couplings_view(unique@) == without_repeats(all.take(iter.index())),
    {
        proof {
            let k = iter.index();
            assert(all.take(k + 1).drop_last() =~= all.take(k));
            assert(all.take(k + 1).last() == coupling@);
        }
        if !holds_coupling(&unique, &coupling) {
            let ghost before = couplings_view(unique@);
            unique.push(coupling);
            proof {
                assert(couplings_view(unique@) =~= before.push(coupling@));
            }
        }
    }
    proof {
        assert(all.take(all.len() as int) =~= all);
    }
    unique
}

} // verus!
