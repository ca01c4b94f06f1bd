//! Writing frameworks in the Aspartix format.
use vstd::prelude::*;

use crate::framework::AAFramework;

verus! {

broadcast use vstd::string::group_string_axioms;

/// The Aspartix line of an argument: `arg(<label>).`
pub open spec fn arg_line(label: Seq<char>) -> Seq<char> {
    seq!['a', 'r', 'g', '('] + label + seq![')', '.', '\n']
}

/// The Aspartix line of an attack: `att(<attacker>,<attacked>).`
pub open spec fn att_line(attacker: Seq<char>, attacked: Seq<char>) -> Seq<char> {
    seq!['a', 't', 't', '('] + attacker + seq![','] + attacked + seq![')', '.', '\n']
}

/// The lines of the arguments, in order.
pub open spec fn args_text(labels: Seq<Seq<char>>) -> Seq<char>
    decreases labels.len(),
{
    if labels.len() == 0 {
        Seq::empty()
    } else {
        args_text(labels.drop_last()) + arg_line(labels.last())
    }
}

/// The lines of the attacks, in order.
pub open spec fn atts_text(labels: Seq<Seq<char>>, attacks: Seq<(usize, usize)>) -> Seq<char>
    decreases attacks.len(),
{
    if attacks.len() == 0 {
        Seq::empty()
    } else {
        atts_text(labels, attacks.drop_last()) + att_line(
            labels[attacks.last().0 as int],
            labels[attacks.last().1 as int],
        )
    }
}

/// A writer of frameworks in the Aspartix format.
#[derive(Debug)]
pub struct AspartixWriter {}

impl Default for AspartixWriter {
    fn default() -> (r: AspartixWriter)
        ensures
            r == (AspartixWriter {  }),
    {
        AspartixWriter {  }
    }
}

impl AspartixWriter {
    /// Writes `framework`: one line `arg(<label>).` per argument, then one line
    /// `att(<attacker>,<attacked>).` per attack.
    pub fn write(&self, framework: &AAFramework, writer: &mut String)
        ensures
            final(writer)@ == old(writer)@ + args_text(framework.labels()) + atts_text(
                framework.labels(),
                framework.attacks(),
            ),
    {
        proof {
            reveal_strlit("arg(");
            reveal_strlit(").\n");
            reveal_strlit("att(");
            reveal_strlit(",");
        }
        let args = framework.argument_set().iter();
        let ghost labels = framework.labels();
        let mut i: usize = 0;
        while i < args.len()
            invariant
                "arg("@ == seq!['a', 'r', 'g', '('],
                ").\n"@ == seq![')', '.', '\n'],
                args@.len() == labels.len(),
                forall|k: int| 0 <= k < args@.len() ==> (#[trigger] args@[k]).spec_label() == labels[k],
                i <= args@.len(),
                writer@ == old(writer)@ + args_text(labels.take(i as int)),
            decreases args@.len() - i,
        {
            let ghost j = i as int;
            assert(labels.take(j + 1).drop_last() =~= labels.take(j));
            writer.append("arg(");
            writer.append(args[i].label().as_str());
            writer.append(").\n");
            i = i + 1;
            assert(writer@ =~= old(writer)@ + args_text(labels.take(j + 1)));
        }
        assert(labels.take(i as int) =~= labels);
        let ghost after_args = writer@;
        let attacks = framework.iter_attacks();
        let ghost atts = framework.attacks();
        let mut i: usize = 0;
        while i < attacks.len()
            invariant
                "att("@ == seq!['a', 't', 't', '('],
                ","@ == seq![','],
                ").\n"@ == seq![')', '.', '\n'],
                attacks@.len() == atts.len(),
                forall|k: int|
                    0 <= k < attacks@.len() ==> {
                        &&& (#[trigger] attacks@[k]).spec_attacker().spec_label() == labels[
                            atts[k].0 as int
                        ]
                        &&& attacks@[k].spec_attacked().spec_label() == labels[atts[k].1 as int]
                    },
                i <= attacks@.len(),
                writer@ == after_args + atts_text(labels, atts.take(i as int)),
            decreases attacks@.len() - i,
        {
            let ghost j = i as int;
            assert(atts.take(j + 1).drop_last() =~= atts.take(j));
            writer.append("att(");
            writer.append(attacks[i].attacker().label().as_str());
            writer.append(",");
            writer.append(attacks[i].attacked().label().as_str());
            writer.append(").\n");
            i = i + 1;
            assert(writer@ =~= after_args + atts_text(labels, atts.take(j + 1)));
        }
        assert(atts.take(i as int) =~= atts);
    }
}

} // verus!
