//! What is written can be read back.
use vstd::prelude::*;

use crate::grammar::count_of;
use crate::grammar::extension_of;
use crate::grammar::AnswerKind;
use crate::grammar::Fault;
use crate::lines::after_first_line;
use crate::lines::first_line;
use crate::lines::lemma_first_line_of;
use crate::solutions::count_text;
use crate::solutions::extension_line;
use crate::solutions::extension_text;
use crate::solutions::extensions_text;
use crate::solutions::join_labels;
use crate::solutions::read_answer;
use crate::solutions::read_answer_from;
use crate::solutions::set_text;
use crate::solutions::AnswerModel;
use crate::text::decimal;
use crate::text::is_label;
use crate::text::is_ws;
use crate::text::lemma_decimal_value;
use crate::text::lemma_split_on_concat;
use crate::text::lemma_split_on_single;
use crate::text::split_on;
use crate::text::trim;
use crate::text::trim_end;
use crate::text::trim_start;

verus! {

/// Text that starts and ends with a character other than white space is its own trimmed form.
pub proof fn lemma_trim_framed(s: Seq<char>)
    requires
        s.len() > 0,
        !is_ws(s[0]),
        !is_ws(s.last()),
    ensures
        trim(s) == s,
{
}

/// A character that an argument label may hold is neither white space nor punctuation of the
/// answer grammar.
proof fn lemma_label_chars(l: Seq<char>)
    requires
        is_label(l),
    ensures
        forall|i: int|
            0 <= i < l.len() ==> {
                &&& !is_ws(#[trigger] l[i])
                &&& l[i] != ','
                &&& l[i] != '\n'
                &&& l[i] != '\r'
            },
        !l.contains(','),
        !l.contains('\n'),
{
    assert forall|i: int| 0 <= i < l.len() implies {
        &&& !is_ws(#[trigger] l[i])
        &&& l[i] != ','
        &&& l[i] != '\n'
        &&& l[i] != '\r'
    } by {
        if i > 0 {
            assert(crate::text::is_label_char(l[i]));
        }
    }
}

/// A label is its own trimmed form, also after a space.
proof fn lemma_trim_label(l: Seq<char>)
    requires
        is_label(l),
    ensures
        trim(l) == l,
        trim(seq![' '] + l) == l,
        split_on(seq![' '] + l, ',') == seq![seq![' '] + l],
        split_on(l, ',') == seq![l],
{
    lemma_label_chars(l);
    lemma_trim_framed(l);
    let s = seq![' '] + l;
    assert(s.drop_first() =~= l);
    assert(trim_start(s) == trim_start(l));
    assert(!s.contains(',')) by {
        if s.contains(',') {
            let k = choose|k: int| 0 <= k < s.len() && s[k] == ',';
            assert(l[k - 1] == ',');
        }
    }
    lemma_split_on_single(s, ',');
    lemma_split_on_single(l, ',');
}

/// The pieces of joined labels, trimmed, are the labels.
proof fn lemma_split_join(ls: Seq<Seq<char>>)
    requires
        ls.len() > 0,
        forall|j: int| 0 <= j < ls.len() ==> is_label(#[trigger] ls[j]),
    ensures
        split_on(join_labels(ls), ',').len() == ls.len(),
        forall|j: int| 0 <= j < ls.len() ==> trim(#[trigger] split_on(join_labels(ls), ',')[j]) == ls[j],
        forall|j: int| 0 <= j < ls.len() ==> is_label(trim(#[trigger] split_on(join_labels(ls), ',')[j])),
        join_labels(ls).len() > 0,
        join_labels(ls)[0] == ls[0][0],
        join_labels(ls).last() == ls.last().last(),
        !join_labels(ls).contains('\n'),
    decreases ls.len(),
{
    lemma_trim_label(ls.last());
    lemma_label_chars(ls.last());
    if ls.len() == 1 {
        lemma_trim_label(ls[0]);
    } else {
        let init = ls.drop_last();
        assert forall|j: int| 0 <= j < init.len() implies is_label(#[trigger] init[j]) by {
            assert(init[j] == ls[j]);
        }
        lemma_split_join(init);
        let tail = seq![' '] + ls.last();
        assert(join_labels(ls) =~= join_labels(init) + seq![','] + tail);
        lemma_split_on_concat(join_labels(init), tail, ',');
        let pieces = split_on(join_labels(ls), ',');
        assert(pieces == split_on(join_labels(init), ',') + seq![tail]);
        assert forall|j: int| 0 <= j < ls.len() implies trim(#[trigger] pieces[j]) == ls[j] by {
            if j < init.len() {
                assert(pieces[j] == split_on(join_labels(init), ',')[j]);
            }
        }
        assert(!join_labels(ls).contains('\n')) by {
            if join_labels(ls).contains('\n') {
                let k = choose|k: int| 0 <= k < join_labels(ls).len() && join_labels(ls)[k] == '\n';
                if k < join_labels(init).len() {
                    assert(join_labels(init)[k] == '\n');
                } else if k >= join_labels(init).len() + 2 {
                    assert(ls.last()[k - join_labels(init).len() - 2] == '\n');
                }
            }
        }
    }
}

/// The line of an extension is read back as the extension.
pub proof fn lemma_extension_line(labels: Seq<Seq<char>>)
    requires
        forall|j: int| 0 <= j < labels.len() ==> is_label(#[trigger] labels[j]),
    ensures
        extension_of(extension_line(labels)) == Ok::<Seq<Seq<char>>, Fault>(labels),
        !extension_line(labels).contains('\n'),
        extension_line(labels).last() == ']',
        extension_line(labels).len() >= 2,
{
    let line = extension_line(labels);
    lemma_trim_framed(line);
    let middle = line.subrange(1, line.len() - 1);
    assert(middle =~= join_labels(labels));
    if labels.len() == 0 {
        assert(join_labels(labels) =~= Seq::<char>::empty());
        assert(labels =~= Seq::<Seq<char>>::empty());
        assert(!line.contains('\n')) by {
            assert(line =~= seq!['[', ']']);
        }
    } else {
        lemma_split_join(labels);
        lemma_label_chars(labels[0]);
        lemma_label_chars(labels.last());
        assert(!is_ws(labels.last()[labels.last().len() - 1]));
        assert(!is_ws(labels[0][0]));
        lemma_trim_framed(join_labels(labels));
        assert(join_labels(labels)[0] == labels[0][0]);
        let pieces = split_on(middle, ',');
        assert(pieces.map_values(|p: Seq<char>| trim(p)) =~= labels);
        assert(!line.contains('\n')) by {
            if line.contains('\n') {
                let k = choose|k: int| 0 <= k < line.len() && line[k] == '\n';
                assert(join_labels(labels)[k - 1] == '\n');
            }
        }
    }
}

/// Writing an extension count and reading it back gives the count.
pub proof fn lemma_count_round_trip(n: usize)
    ensures
        first_line(count_text(n as nat)) == decimal(n as nat),
        after_first_line(count_text(n as nat)) == Seq::<char>::empty(),
        count_of(decimal(n as nat)) == Ok::<usize, Fault>(n),
        read_answer_from(AnswerKind::ExtensionCount, count_text(n as nat)) == (
            Ok::<AnswerModel, Fault>(AnswerModel::Count(n)),
            Seq::<char>::empty(),
        ),
{
    let d = decimal(n as nat);
    lemma_decimal_value(n as nat);
    assert(!d.contains('\n')) by {
        if d.contains('\n') {
            let k = choose|k: int| 0 <= k < d.len() && d[k] == '\n';
            assert(crate::text::is_digit(d[k]));
        }
    }
    assert(crate::text::is_digit(d.last()));
    assert(crate::text::is_digit(d[0]));
    lemma_first_line_of(d, Seq::empty());
    assert(d + seq!['\n'] + Seq::<char>::empty() =~= count_text(n as nat));
    lemma_trim_framed(d);
}

/// Writing an extension and reading it back gives its labels, in order.
pub proof fn lemma_extension_round_trip(labels: Seq<Seq<char>>)
    requires
        forall|j: int| 0 <= j < labels.len() ==> is_label(#[trigger] labels[j]),
    ensures
        first_line(extension_text(labels)) == extension_line(labels),
        after_first_line(extension_text(labels)) == Seq::<char>::empty(),
        extension_of(extension_line(labels)) == Ok::<Seq<Seq<char>>, Fault>(labels),
        read_answer_from(AnswerKind::Extension, extension_text(labels)) == (
            Ok::<AnswerModel, Fault>(AnswerModel::Extension(labels)),
            Seq::<char>::empty(),
        ),
{
    lemma_extension_line(labels);
    lemma_first_line_of(extension_line(labels), Seq::empty());
    assert(extension_line(labels) + seq!['\n'] + Seq::<char>::empty() =~= extension_text(labels));
}

/// The written forms of extensions, from the first one.
proof fn lemma_extensions_text_front(es: Seq<Seq<Seq<char>>>)
    requires
        es.len() > 0,
    ensures
        extensions_text(es) == extension_text(es[0]) + extensions_text(es.drop_first()),
    decreases es.len(),
{
    if es.len() == 1 {
        assert(es.drop_last() =~= Seq::<Seq<Seq<char>>>::empty());
        assert(es.drop_first() =~= Seq::<Seq<Seq<char>>>::empty());
        assert(extensions_text(es) =~= extension_text(es[0]) + extensions_text(es.drop_first()));
    } else {
        lemma_extensions_text_front(es.drop_last());
        assert(es.drop_last().drop_first() =~= es.drop_first().drop_last());
        assert(es.drop_first().last() == es.last());
        assert(extensions_text(es) =~= extension_text(es[0]) + extensions_text(es.drop_first()));
    }
}

/// Reading the members of a set of extensions, then its closing line.
proof fn lemma_read_members(acc: Seq<Seq<Seq<char>>>, read: nat, es: Seq<Seq<Seq<char>>>)
    requires
        forall|i: int, j: int|
            0 <= i < es.len() && 0 <= j < es[i].len() ==> is_label(#[trigger] es[i][j]),
    ensures
        read_answer(
            AnswerKind::ExtensionSet,
            Some(acc),
            read,
            extensions_text(es) + seq![']', '\n'],
        ) == (Ok::<AnswerModel, Fault>(AnswerModel::Extensions(acc + es)), Seq::<char>::empty()),
    decreases es.len(),
{
    let text = extensions_text(es) + seq![']', '\n'];
    if es.len() == 0 {
        assert(text =~= seq![']'] + seq!['\n'] + Seq::<char>::empty());
        lemma_first_line_of(seq![']'], Seq::empty());
        lemma_trim_framed(seq![']']);
        assert(acc + es =~= acc);
    } else {
        let e = es[0];
        assert forall|j: int| 0 <= j < e.len() implies is_label(#[trigger] e[j]) by {
            assert(is_label(es[0][j]));
        }
        lemma_extension_line(e);
        lemma_trim_framed(extension_line(e));
        lemma_extensions_text_front(es);
        let rest = extensions_text(es.drop_first()) + seq![']', '\n'];
        assert(text =~= extension_line(e) + seq!['\n'] + rest);
        lemma_first_line_of(extension_line(e), rest);
        assert forall|i: int, j: int|
            0 <= i < es.drop_first().len() && 0 <= j < es.drop_first()[i].len() implies is_label(
            #[trigger] es.drop_first()[i][j],
        ) by {
            assert(es.drop_first()[i] == es[i + 1]);
        }
        let number = crate::solutions::next_number(read);
        lemma_read_members(acc.push(e), number, es.drop_first());
        assert(acc.push(e) + es.drop_first() =~= acc + es);
    }
}

/// Writing a set of extensions and reading it back gives the extensions, in order.
pub proof fn lemma_extension_set_round_trip(es: Seq<Seq<Seq<char>>>)
    requires
        forall|i: int, j: int|
            0 <= i < es.len() && 0 <= j < es[i].len() ==> is_label(#[trigger] es[i][j]),
    ensures
        read_answer_from(AnswerKind::ExtensionSet, set_text(es)) == (
            Ok::<AnswerModel, Fault>(AnswerModel::Extensions(es)),
            Seq::<char>::empty(),
        ),
        read_answer_from(AnswerKind::ExtensionSet, seq!['[', ']', '\n']) == (
            Ok::<AnswerModel, Fault>(AnswerModel::Extensions(Seq::empty())),
            Seq::<char>::empty(),
        ),
{
    lemma_extension_line(Seq::empty());
    assert(extension_line(Seq::empty()) =~= seq!['[', ']']);
    assert(seq!['[', ']', '\n'] =~= seq!['[', ']'] + seq!['\n'] + Seq::<char>::empty());
    lemma_first_line_of(seq!['[', ']'], Seq::empty());
    lemma_trim_framed(seq!['[', ']']);
    assert(seq!['[', ']'].subrange(1, 1) =~= Seq::<char>::empty());
    let rest = extensions_text(es) + seq![']', '\n'];
    assert(set_text(es) =~= seq!['['] + seq!['\n'] + rest);
    lemma_first_line_of(seq!['['], rest);
    lemma_trim_framed(seq!['[']);
    lemma_read_members(Seq::empty(), 1, es);
    assert(Seq::<Seq<Seq<char>>>::empty() + es =~= es);
}

} // verus!
