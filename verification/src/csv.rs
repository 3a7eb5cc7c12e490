//! CSV: fields quoted as RFC 4180 has it, and rows of them.
use vstd::prelude::*;

use crate::text::{chars_of, text_of};

verus! {

/// A character that cannot stand in a field without quotes.
pub open spec fn special(c: char) -> bool {
    c == ',' || c == '"' || c == '\n' || c == '\r'
}

/// The field has to stand in quotes.
pub open spec fn needs_quotes(value: Seq<char>) -> bool {
    exists|i: int| 0 <= i < value.len() && special(#[trigger] value[i])
}

/// The text with each quote doubled.
pub open spec fn doubled(value: Seq<char>) -> Seq<char>
    decreases value.len(),
{
    if value.len() == 0 {
        Seq::empty()
    } else if value.last() == '"' {
        doubled(value.drop_last()).push('"').push('"')
    } else {
        doubled(value.drop_last()).push(value.last())
    }
}

/// The field as it is written.
pub open spec fn csv_text(value: Seq<char>) -> Seq<char> {
    if needs_quotes(value) {
        seq!['"'] + doubled(value) + seq!['"']
    } else {
        value
    }
}

/// The fields as they are written, with commas between them.
pub open spec fn csv_joined(fields: Seq<Seq<char>>) -> Seq<char>
    decreases fields.len(),
{
    if fields.len() == 0 {
        Seq::empty()
    } else if fields.len() == 1 {
        csv_text(fields[0])
    } else {
        csv_joined(fields.drop_last()).push(',') + csv_text(fields.last())
    }
}

/// The row as it is written.
pub open spec fn csv_line(fields: Seq<Seq<char>>) -> Seq<char> {
    csv_joined(fields).push('\n')
}

/// Quotes a field when it contains a comma, a quote or a line break.
pub fn csv_field(value: &str) -> (text: String)
    ensures
        text@ == csv_text(value@),
{
    let chars = chars_of(value);
    let mut quotes = false;
    let mut text = String::new();
    text.push('"');
    for i in 0..chars.len()
        invariant
            quotes == needs_quotes(chars@.take(i as int)),
            text@ == seq!['"'] + doubled(chars@.take(i as int)),
    {
        let c = chars[i];
        let ghost done = chars@.take(i as int);
        let ghost more = chars@.take(i + 1);
        assert(more =~= done.push(c));
        assert(more.drop_last() =~= done);
        if c == ',' || c == '"' || c == '\n' || c == '\r' {
            quotes = true;
            assert(special(more[i as int]));
        }
        proof {
            if needs_quotes(done) {
                let j = choose|j: int| 0 <= j < done.len() && special(#[trigger] done[j]);
                assert(special(more[j]));
            }
            if needs_quotes(more) && !special(c) {
                let j = choose|j: int| 0 <= j < more.len() && special(#[trigger] more[j]);
                assert(special(done[j]));
            }
        }
        text.push(c);
        if c == '"' {
            text.push(c);
        }
        assert(text@ =~= seq!['"'] + doubled(more));
    }
    assert(chars@.take(chars@.len() as int) =~= chars@);
    if quotes {
        text.push('"');
        assert(text@ =~= csv_text(value@));
        text
    } else {
        text_of(value)
    }
}

/// What the fields say.
pub open spec fn field_texts<const N: usize>(fields: [&str; N]) -> Seq<Seq<char>> {
    Seq::new(N as nat, |i: int| fields[i]@)
}

/// Writes a row.
pub fn csv_row<const N: usize>(fields: [&str; N]) -> (line: String)
    ensures
        line@ == csv_line(field_texts(fields)),
{
    let ghost said = field_texts(fields);
    let mut line = String::new();
    for i in 0..N
        invariant
            said == field_texts(fields),
            line@ == csv_joined(said.take(i as int)),
    {
        let ghost done = said.take(i as int);
        let ghost more = said.take(i + 1);
        assert(more.drop_last() =~= done);
        assert(more.last() == fields[i as int]@);
        if i > 0 {
            line.push(',');
        }
        line.append(csv_field(fields[i]).as_str());
        assert(line@ =~= csv_joined(more));
    }
    assert(said.take(N as int) =~= said);
    line.push('\n');
    line
}

/// A reader of CSV inside quotes: the field up to the closing quote, and what follows that.
pub open spec fn read_quoted(text: Seq<char>) -> Option<(Seq<char>, Seq<char>)>
    decreases text.len(),
{
    if text.len() == 0 {
        None
    } else if text[0] != '"' {
        match read_quoted(text.skip(1)) {
            Some((field, rest)) => Some((seq![text[0]] + field, rest)),
            None => None,
        }
    } else if text.len() > 1 && text[1] == '"' {
        match read_quoted(text.skip(2)) {
            Some((field, rest)) => Some((seq!['"'] + field, rest)),
            None => None,
        }
    } else {
        Some((Seq::empty(), text.skip(1)))
    }
}

/// A reader of CSV outside quotes: the field up to a comma or a line break, and what follows.
pub open spec fn read_bare(text: Seq<char>) -> (Seq<char>, Seq<char>)
    decreases text.len(),
{
    if text.len() == 0 || text[0] == ',' || text[0] == '\n' {
        (Seq::empty(), text)
    } else {
        let (field, rest) = read_bare(text.skip(1));
        (seq![text[0]] + field, rest)
    }
}

/// A reader of CSV: the field that the text begins with, and what follows it.
pub open spec fn read_field(text: Seq<char>) -> Option<(Seq<char>, Seq<char>)> {
    if text.len() > 0 && text[0] == '"' {
        read_quoted(text.skip(1))
    } else {
        Some(read_bare(text))
    }
}

/// What follows a field is no longer than the text.
proof fn lemma_reading_shrinks(text: Seq<char>)
    ensures
        read_quoted(text) matches Some((field, rest)) ==> rest.len() < text.len(),
        read_bare(text).1.len() <= text.len(),
    decreases text.len(),
{
    if text.len() > 0 {
        lemma_reading_shrinks(text.skip(1));
        if text.len() > 1 {
            lemma_reading_shrinks(text.skip(2));
        }
    }
}

/// A reader of CSV: the fields of the row that the text begins with, and what follows the row.
pub open spec fn read_row(text: Seq<char>) -> Option<(Seq<Seq<char>>, Seq<char>)>
    decreases text.len(),
    via read_row_ends
{
    match read_field(text) {
        None => None,
        Some((field, rest)) => if rest.len() == 0 {
            None
        } else if rest[0] == '\n' {
            Some((seq![field], rest.skip(1)))
        } else if rest[0] == ',' {
            match read_row(rest.skip(1)) {
                Some((fields, more)) => Some((seq![field] + fields, more)),
                None => None,
            }
        } else {
            None
        },
    }
}

#[via_fn]
proof fn read_row_ends(text: Seq<char>) {
    lemma_reading_shrinks(text);
    if text.len() > 0 {
        lemma_reading_shrinks(text.skip(1));
    }
}

/// A doubled text, read in quotes before what reads as `field`, is the text again.
proof fn lemma_doubled_reads_back(
    value: Seq<char>,
    rest: Seq<char>,
    field: Seq<char>,
    tail: Seq<char>,
)
    requires
        read_quoted(rest) == Some((field, tail)),
    ensures
        read_quoted(doubled(value) + rest) == Some((value + field, tail)),
    decreases value.len(),
{
    if value.len() == 0 {
        assert(doubled(value) + rest =~= rest);
        assert(value + field =~= field);
    } else {
        let c = value.last();
        let fewer = value.drop_last();
        if c == '"' {
            let longer = seq!['"', '"'] + rest;
            assert(longer.skip(2) =~= rest);
            assert(doubled(value) + rest =~= doubled(fewer) + longer);
            lemma_doubled_reads_back(fewer, longer, seq!['"'] + field, tail);
            assert(fewer + (seq!['"'] + field) =~= value + field);
        } else {
            let longer = seq![c] + rest;
            assert(longer.skip(1) =~= rest);
            assert(doubled(value) + rest =~= doubled(fewer) + longer);
            lemma_doubled_reads_back(fewer, longer, seq![c] + field, tail);
            assert(fewer + (seq![c] + field) =~= value + field);
        }
    }
}

/// A text without special characters, read before the end of a field, is the text again.
proof fn lemma_bare_reads_back(value: Seq<char>, rest: Seq<char>)
    requires
        !needs_quotes(value),
        rest.len() == 0 || rest[0] == ',' || rest[0] == '\n',
    ensures
        read_bare(value + rest) == (value, rest),
    decreases value.len(),
{
    if value.len() == 0 {
        assert(value + rest =~= rest);
        assert(value =~= Seq::empty());
    } else {
        let text = value + rest;
        assert(!special(value[0]));
        assert(text.skip(1) =~= value.skip(1) + rest);
        assert(!needs_quotes(value.skip(1))) by {
            if needs_quotes(value.skip(1)) {
                let fewer = value.skip(1);
                let i = choose|i: int| 0 <= i < fewer.len() && special(#[trigger] fewer[i]);
                assert(special(value[i + 1]));
            }
        }
        lemma_bare_reads_back(value.skip(1), rest);
        assert(seq![value[0]] + value.skip(1) =~= value);
    }
}

/// Whatever a field says, a reader of CSV gets it back from what is written, at the end of a row
/// or before another field.
pub proof fn csv_field_reads_back(value: Seq<char>, rest: Seq<char>)
    requires
        rest.len() == 0 || rest[0] == ',' || rest[0] == '\n',
    ensures
        read_field(csv_text(value) + rest) == Some((value, rest)),
{
    let text = csv_text(value) + rest;
    if needs_quotes(value) {
        let close = seq!['"'] + rest;
        assert(close.skip(1) =~= rest);
        assert(read_quoted(close) == Some((Seq::<char>::empty(), rest)));
        lemma_doubled_reads_back(value, close, Seq::empty(), rest);
        assert(text.skip(1) =~= doubled(value) + close);
        assert(value + Seq::<char>::empty() =~= value);
    } else {
        if value.len() > 0 {
            assert(!special(value[0]));
            assert(text[0] == value[0]);
        } else if rest.len() > 0 {
            assert(text[0] == rest[0]);
        }
        lemma_bare_reads_back(value, rest);
    }
}

/// Joined fields begin with the first of them.
proof fn lemma_joined_from_the_front(fields: Seq<Seq<char>>)
    requires
        fields.len() > 1,
    ensures
        csv_joined(fields) == csv_text(fields[0]).push(',') + csv_joined(fields.skip(1)),
    decreases fields.len(),
{
    let fewer = fields.drop_last();
    let later = fields.skip(1);
    if fields.len() == 2 {
        assert(csv_joined(fewer) == csv_text(fields[0]));
        assert(csv_joined(later) == csv_text(fields[1]));
    } else {
        lemma_joined_from_the_front(fewer);
        assert(fewer.skip(1) =~= later.drop_last());
        assert(csv_joined(fields) =~= csv_text(fields[0]).push(',') + csv_joined(later));
    }
}

/// Whatever the fields of a row say, a reader of CSV gets them back from what is written, and then
/// what was written after the row.
pub proof fn csv_row_reads_back(fields: Seq<Seq<char>>, more: Seq<char>)
    requires
        fields.len() > 0,
    ensures
        read_row(csv_line(fields) + more) == Some((fields, more)),
    decreases fields.len(),
{
    let text = csv_line(fields) + more;
    if fields.len() == 1 {
        let rest = seq!['\n'] + more;
        assert(text =~= csv_text(fields[0]) + rest);
        csv_field_reads_back(fields[0], rest);
        assert(rest.skip(1) =~= more);
        assert(fields =~= seq![fields[0]]);
    } else {
        let later = fields.skip(1);
        let rest = seq![','] + csv_line(later) + more;
        lemma_joined_from_the_front(fields);
        assert(text =~= csv_text(fields[0]) + rest);
        csv_field_reads_back(fields[0], rest);
        assert(rest.skip(1) =~= csv_line(later) + more);
        csv_row_reads_back(later, more);
        assert(seq![fields[0]] + later =~= fields);
    }
}

} // verus!
