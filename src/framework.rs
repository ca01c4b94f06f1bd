//! Abstract argumentation frameworks: a set of arguments and the attacks between them.
use vstd::prelude::*;

use crate::arguments::index_of;
use crate::arguments::lemma_index_of;
use crate::arguments::Argument;
use crate::arguments::ArgumentError;
use crate::arguments::ArgumentSet;

verus! {

broadcast use vstd::string::group_string_axioms;

/// An attack of one argument on another.
#[derive(Debug)]
pub struct Attack<'a> {
    attacker: &'a Argument,
    attacked: &'a Argument,
}

impl<'a> Attack<'a> {
    /// The attacking argument.
    pub closed spec fn spec_attacker(&self) -> &'a Argument {
        self.attacker
    }

    /// The attacked argument.
    pub closed spec fn spec_attacked(&self) -> &'a Argument {
        self.attacked
    }

    /// Returns the attacker.
    pub fn attacker(&self) -> (r: &'a Argument)
        ensures
            r == self.spec_attacker(),
    {
        self.attacker
    }

    /// Returns the attacked argument.
    pub fn attacked(&self) -> (r: &'a Argument)
        ensures
            r == self.spec_attacked(),
    {
        self.attacked
    }
}

/// The text `"<attacker> → <attacked>"`.
pub fn format_attack(attacker: &str, attacked: &str) -> (r: String)
    ensures
        r@ == attacker@ + " → "@ + attacked@,
{
    let mut r = attacker.to_string();
    r.append(" → ");
    r.append(attacked);
    r
}

/// An abstract argumentation framework in the sense of Dung.
#[derive(Debug)]
pub struct AAFramework {
    arguments: ArgumentSet,
    attacks: Vec<(usize, usize)>,
}

impl AAFramework {
    #[verifier::type_invariant]
    closed spec fn inv(self) -> bool {
        forall|i: int|
            0 <= i < self.attacks@.len() ==> (#[trigger] self.attacks@[i]).0 < self.arguments@.len()
                && self.attacks@[i].1 < self.arguments@.len()
    }

    /// The labels of the arguments, by identifier.
    pub closed spec fn labels(&self) -> Seq<Seq<char>> {
        self.arguments@
    }

    /// The attacks, as pairs (attacker, attacked) of identifiers, in order of addition.
    pub closed spec fn attacks(&self) -> Seq<(usize, usize)> {
        self.attacks@
    }

    /// Builds a framework over `arguments`, with no attack.
    pub fn new(arguments: ArgumentSet) -> (r: AAFramework)
        ensures
            r.labels() == arguments@,
            r.attacks() == Seq::<(usize, usize)>::empty(),
    {
        AAFramework { arguments, attacks: Vec::new() }
    }

    /// Adds an attack between the arguments labelled `from` and `to`; an attack that is already
    /// there is added again.
    pub fn new_attack(&mut self, from: &String, to: &String) -> (r: Result<(), ArgumentError>)
        ensures
            final(self).labels() == old(self).labels(),
            match r {
                Ok(()) => {
                    &&& index_of(old(self).labels(), from@) is Some
                    &&& index_of(old(self).labels(), to@) is Some
                    &&& final(self).attacks() == old(self).attacks().push(
                        (
                            index_of(old(self).labels(), from@)->0 as usize,
                            index_of(old(self).labels(), to@)->0 as usize,
                        ),
                    )
                },
                Err(e) => {
                    &&& final(self).attacks() == old(self).attacks()
                    &&& e is NoSuchArgument
                    &&& if index_of(old(self).labels(), from@) is None {
                        e->NoSuchArgument_0@ == from@
                    } else {
                        index_of(old(self).labels(), to@) is None && e->NoSuchArgument_0@ == to@
                    }
                },
            },
    {
        let a = match self.arguments.get_argument_index(from) {
            Ok(a) => a,
            Err(e) => {
                return Err(e);
            },
        };
        let b = match self.arguments.get_argument_index(to) {
            Ok(b) => b,
            Err(e) => {
                return Err(e);
            },
        };
        proof {
            lemma_index_of(self.arguments@, from@);
            lemma_index_of(self.arguments@, to@);
        }
        self.push_attack(a, b);
        Ok(())
    }

    /// Adds an attack between the arguments of identifiers `from` and `to`.
    pub fn new_attack_by_ids(&mut self, from: usize, to: usize) -> (r: Result<(), ArgumentError>)
        ensures
            final(self).labels() == old(self).labels(),
            match r {
                Ok(()) => {
                    &&& from < old(self).labels().len()
                    &&& to < old(self).labels().len()
                    &&& final(self).attacks() == old(self).attacks().push((from, to))
                },
                Err(e) => {
                    &&& (from >= old(self).labels().len() || to >= old(self).labels().len())
                    &&& final(self).attacks() == old(self).attacks()
                    &&& e == ArgumentError::NoSuchIdentifier(from, to)
                },
            },
    {
        let n_arguments = self.arguments.len();
        if from >= n_arguments || to >= n_arguments {
            return Err(ArgumentError::NoSuchIdentifier(from, to));
        }
        self.push_attack(from, to);
        Ok(())
    }

    fn push_attack(&mut self, from: usize, to: usize)
        requires
            from < old(self).labels().len(),
            to < old(self).labels().len(),
        ensures
            final(self).labels() == old(self).labels(),
            final(self).attacks() == old(self).attacks().push((from, to)),
    {
        proof {
            use_type_invariant(&*self);
        }
        let mut attacks: Vec<(usize, usize)> = Vec::new();
        std::mem::swap(&mut self.attacks, &mut attacks);
        attacks.push((from, to));
        std::mem::swap(&mut self.attacks, &mut attacks);
    }

    /// Returns the argument set of the framework.
    pub fn argument_set(&self) -> (r: &ArgumentSet)
        ensures
            r@ == self.labels(),
    {
        &self.arguments
    }

    /// Returns the attacks, in order of addition.
    pub fn iter_attacks(&self) -> (r: Vec<Attack<'_>>)
        ensures
            r@.len() == self.attacks().len(),
            forall|i: int|
                0 <= i < r@.len() ==> {
                    &&& (#[trigger] r@[i]).spec_attacker().spec_id() == self.attacks()[i].0
                    &&& r@[i].spec_attacked().spec_id() == self.attacks()[i].1
                    &&& r@[i].spec_attacker().spec_label() == self.labels()[
                        self.attacks()[i].0 as int
                    ]
                    &&& r@[i].spec_attacked().spec_label() == self.labels()[
                        self.attacks()[i].1 as int
                    ]
                },
    {
        proof {
            use_type_invariant(self);
        }
        let mut out: Vec<Attack<'_>> = Vec::new();
        let mut i: usize = 0;
        while i < self.attacks.len()
            invariant
                i <= self.attacks@.len(),
                out@.len() == i,
                forall|k: int|
                    0 <= k < self.attacks@.len() ==> (#[trigger] self.attacks@[k]).0
                        < self.arguments@.len() && self.attacks@[k].1 < self.arguments@.len(),
                forall|k: int|
                    0 <= k < i ==> {
                        &&& (#[trigger] out@[k]).spec_attacker().spec_id() == self.attacks@[k].0
                        &&& out@[k].spec_attacked().spec_id() == self.attacks@[k].1
                        &&& out@[k].spec_attacker().spec_label() == self.arguments@[
                            self.attacks@[k].0 as int
                        ]
                        &&& out@[k].spec_attacked().spec_label() == self.arguments@[
                            self.attacks@[k].1 as int
                        ]
                    },
            decreases self.attacks@.len() - i,
        {
            let (a, b) = self.attacks[i];
            out.push(
                Attack {
                    attacker: self.arguments.get_argument_by_id(a),
                    attacked: self.arguments.get_argument_by_id(b),
                },
            );
            i = i + 1;
        }
        out
    }

    /// Returns the number of attacks in the framework.
    pub fn n_attacks(&self) -> (r: usize)
        ensures
            r == self.attacks().len(),
    {
        self.attacks.len()
    }
}

} // verus!
