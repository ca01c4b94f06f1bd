//! Arguments and sets of arguments, identified by their index.
use vstd::prelude::*;

verus! {

/// Why an argument or an attack could not be found or added.
#[derive(Debug)]
pub enum ArgumentError {
    /// No argument has this label.
    NoSuchArgument(String),
    /// An attack between these identifiers names an argument that does not exist.
    NoSuchIdentifier(usize, usize),
}

/// An argument: a label and an identifier that is unique in its argument set.
#[derive(Debug)]
pub struct Argument {
    id: usize,
    label: String,
}

impl Argument {
    /// The identifier of the argument.
    pub closed spec fn spec_id(&self) -> usize {
        self.id
    }

    /// The label of the argument.
    pub closed spec fn spec_label(&self) -> Seq<char> {
        self.label@
    }

    /// Returns the label of the argument.
    pub fn label(&self) -> (r: &String)
        ensures
            r@ == self.spec_label(),
    {
        &self.label
    }

    /// Returns the identifier of the argument.
    pub fn id(&self) -> (r: usize)
        ensures
            r == self.spec_id(),
    {
        self.id
    }
}

/// The index of the last label of `labels` equal to `l`, if any.
pub open spec fn index_of(labels: Seq<Seq<char>>, l: Seq<char>) -> Option<nat>
    decreases labels.len(),
{
    if labels.len() == 0 {
        None
    } else if labels.last() == l {
        Some((labels.len() - 1) as nat)
    } else {
        index_of(labels.drop_last(), l)
    }
}

/// `index_of` finds the last occurrence of a label, if there is one.
pub proof fn lemma_index_of(labels: Seq<Seq<char>>, l: Seq<char>)
    ensures
        index_of(labels, l) is Some <==> labels.contains(l),
        index_of(labels, l) is Some ==> {
            let i = index_of(labels, l)->0 as int;
            &&& i < labels.len()
            &&& labels[i] == l
            &&& forall|j: int| i < j < labels.len() ==> labels[j] != l
        },
    decreases labels.len(),
{
    if labels.len() > 0 {
        lemma_index_of(labels.drop_last(), l);
        if labels.last() != l {
            if labels.contains(l) {
                let k = choose|k: int| 0 <= k < labels.len() && labels[k] == l;
                assert(labels.drop_last()[k] == l);
            }
            if labels.drop_last().contains(l) {
                let k = choose|k: int|
                    0 <= k < labels.drop_last().len() && labels.drop_last()[k] == l;
                assert(labels[k] == l);
            }
            if index_of(labels, l) is Some {
                let i = index_of(labels, l)->0 as int;
                assert forall|j: int| i < j < labels.len() implies labels[j] != l by {
                    if j < labels.len() - 1 {
                        assert(labels.drop_last()[j] == labels[j]);
                    }
                }
            }
        } else {
            assert(labels[labels.len() - 1] == l);
        }
    }
}

/// The set of arguments of a framework; each argument's identifier is its index.
#[derive(Debug)]
pub struct ArgumentSet {
    arguments: Vec<Argument>,
}

impl View for ArgumentSet {
    type V = Seq<Seq<char>>;

    /// The labels of the arguments, by identifier.
    closed spec fn view(&self) -> Seq<Seq<char>> {
        self.arguments@.map_values(|a: Argument| a.label@)
    }
}

impl ArgumentSet {
    #[verifier::type_invariant]
    closed spec fn inv(self) -> bool {
        forall|i: int| 0 <= i < self.arguments@.len() ==> (#[trigger] self.arguments@[i]).id == i
    }

    /// Builds the set of arguments with the given labels; the argument of index `i` gets the
    /// identifier `i`.
    pub fn new(labels: Vec<String>) -> (r: ArgumentSet)
        ensures
            r@ == labels@.map_values(|l: String| l@),
    {
        let mut arguments: Vec<Argument> = Vec::new();
        let n = labels.len();
        while arguments.len() < n
            invariant
                arguments@.len() <= n == labels@.len(),
                forall|i: int| 0 <= i < arguments@.len() ==> (#[trigger] arguments@[i]).id == i,
                forall|i: int|
                    0 <= i < arguments@.len() ==> (#[trigger] arguments@[i]).label@ == labels@[i]@,
            decreases n - arguments@.len(),
        {
            let id = arguments.len();
            arguments.push(Argument { id, label: labels[id].clone() });
        }
        let r = ArgumentSet { arguments };
        assert(r@ =~= labels@.map_values(|l: String| l@));
        r
    }

    /// Returns the number of arguments in the set.
    pub fn len(&self) -> (r: usize)
        ensures
            r == self@.len(),
    {
        self.arguments.len()
    }

    /// Returns `true` iff the set has no argument.
    pub fn is_empty(&self) -> (r: bool)
        ensures
            r == (self@.len() == 0),
    {
        self.arguments.len() == 0
    }

    /// Returns the identifier of the argument labelled `label` (the last one, if several are).
    pub fn get_argument_index(&self, label: &String) -> (r: Result<usize, ArgumentError>)
        ensures
            match r {
                Ok(i) => index_of(self@, label@) == Some(i as nat),
                Err(e) => index_of(self@, label@) is None && e is NoSuchArgument
                    && e->NoSuchArgument_0@ == label@,
            },
    {
        let mut i = self.arguments.len();
        assert(self@.take(i as int) =~= self@);
        while i > 0
            invariant
                i <= self.arguments@.len(),
                index_of(self@, label@) == index_of(self@.take(i as int), label@),
            decreases i,
        {
            assert(self@.take(i as int).drop_last() =~= self@.take(i - 1));
            if self.arguments[i - 1].label == *label {
                return Ok(i - 1);
            }
            i = i - 1;
        }
        Err(ArgumentError::NoSuchArgument(label.clone()))
    }

    /// Returns the argument with identifier `id`.
    pub fn get_argument_by_id(&self, id: usize) -> (r: &Argument)
        requires
            id < self@.len(),
        ensures
            r.spec_id() == id,
            r.spec_label() == self@[id as int],
    {
        proof {
            use_type_invariant(self);
        }
        &self.arguments[id]
    }

    /// Returns the arguments, by identifier.
    pub fn iter(&self) -> (r: &[Argument])
        ensures
            r@.len() == self@.len(),
            forall|i: int|
                0 <= i < r@.len() ==> (#[trigger] r@[i]).spec_id() == i && r@[i].spec_label()
                    == self@[i],
    {
        proof {
            use_type_invariant(self);
        }
        self.arguments.as_slice()
    }
}

} // verus!
