//! Laws of the messages of the debugger: what is read out of them, and where
//! they say that the program was stopped.
use crate::instances::debugger::{
    attribute_value, before_last_quote, first_field, first_line, quoted_first, stop,
};
use crate::laws::texts::{
    decimal, decimal_is_read, only_digits_are_read, split_one_more, unquoted_and_quoted,
};
use crate::text::{join, split, split_joined, split_parts, unquoted};
use vstd::prelude::*;

verus! {

/// `fields` are the fields of a message, which commas separate.
pub open spec fn are_fields(fields: Seq<Seq<char>>) -> bool {
    &&& fields.len() > 0
    &&& forall|i: int| 0 <= i < fields.len() ==> !(#[trigger] fields[i]).contains(',')
}

/// A field that gives an attribute a value: its name, an equals sign, the value
/// in quotes, and what is written behind it.
pub open spec fn field_of(name: Seq<char>, value: Seq<char>, behind: Seq<char>) -> Seq<char> {
    name + seq!['=', '"'] + value + seq!['"'] + behind
}

/// Behind the quotes of a value there is nothing, or the line ends without
/// another quote and other lines may follow, of which the last does not end in a
/// quote. Such a value is one line.
pub open spec fn may_follow(value: Seq<char>, behind: Seq<char>) -> bool {
    behind.len() > 0 ==> {
        &&& behind.last() != '"'
        &&& !value.contains('\n')
        &&& forall|i: int|
            0 <= i < behind.len() && #[trigger] behind[i] == '"' ==> exists|j: int|
                0 <= j < i && #[trigger] behind[j] == '\n'
    }
}

/// `fields[k]` gives the attribute `name` the value `value`, and no field before
/// it gives it one.
pub open spec fn gives(
    fields: Seq<Seq<char>>,
    k: int,
    name: Seq<char>,
    value: Seq<char>,
    behind: Seq<char>,
) -> bool {
    &&& are_fields(fields)
    &&& 0 <= k < fields.len()
    &&& fields[k] == field_of(name, value, behind)
    &&& forall|j: int| 0 <= j < k ==> !name.push('=').is_prefix_of(#[trigger] fields[j])
    &&& may_follow(value, behind)
}

/// The first field with a prefix is found behind fields without it.
proof fn field_is_first(fields: Seq<Seq<char>>, k: int, prefix: Seq<char>)
    requires
        0 <= k < fields.len(),
        prefix.is_prefix_of(fields[k]),
        forall|j: int| 0 <= j < k ==> !prefix.is_prefix_of(#[trigger] fields[j]),
    ensures
        first_field(fields, prefix) == Some(fields[k]),
    decreases k,
{
    if k > 0 {
        let rest = fields.drop_first();
        assert(!prefix.is_prefix_of(fields[0]));
        assert forall|j: int| 0 <= j < k - 1 implies !prefix.is_prefix_of(#[trigger] rest[j]) by {
            assert(rest[j] == fields[j + 1]);
        }
        field_is_first(rest, k - 1, prefix);
    }
}

/// No field with a prefix is found where there is none.
proof fn field_is_missing(fields: Seq<Seq<char>>, prefix: Seq<char>)
    requires
        forall|j: int| 0 <= j < fields.len() ==> !prefix.is_prefix_of(#[trigger] fields[j]),
    ensures
        first_field(fields, prefix) is None,
    decreases fields.len(),
{
    if fields.len() > 0 {
        let rest = fields.drop_first();
        assert(!prefix.is_prefix_of(fields[0]));
        assert forall|j: int| 0 <= j < rest.len() implies !prefix.is_prefix_of(
            #[trigger] rest[j],
        ) by {
            assert(rest[j] == fields[j + 1]);
        }
        field_is_missing(rest, prefix);
    }
}

/// The first line of a text that is cut at the end of its first line.
proof fn first_line_of(line: Seq<char>, behind: Seq<char>)
    requires
        !line.contains('\n'),
        behind.len() == 0 || behind[0] == '\n',
    ensures
        first_line(line + behind) == line,
    decreases behind.len(),
{
    split_one_more(line, line, '\n');
    if behind.len() == 0 {
        assert(line + behind == line);
    } else {
        let all = line + behind;
        assert(all.drop_last() == line + behind.drop_last());
        assert(all.last() == behind.last());
        first_line_of(line, behind.drop_last());
        split_parts(all.drop_last(), '\n');
        if behind.len() == 1 {
            assert(behind.drop_last() == Seq::<char>::empty());
            assert(all.last() == '\n');
        } else {
            more_than_one(line, behind.drop_last());
        }
    }
}

/// A text with the end of a line in it has more than one part.
proof fn more_than_one(line: Seq<char>, behind: Seq<char>)
    requires
        behind.len() > 0,
        behind[0] == '\n',
    ensures
        split(line + behind, '\n').len() > 1,
    decreases behind.len(),
{
    let all = line + behind;
    assert(all.drop_last() == line + behind.drop_last());
    split_parts(all.drop_last(), '\n');
    if behind.len() > 1 {
        more_than_one(line, behind.drop_last());
    } else {
        assert(all.last() == '\n');
    }
}

/// How long the first line of a text is.
proof fn line_length(s: Seq<char>) -> (n: int)
    ensures
        0 <= n <= s.len(),
        forall|i: int| 0 <= i < n ==> s[i] != '\n',
        n < s.len() ==> s[n] == '\n',
    decreases s.len(),
{
    if s.len() == 0 {
        0
    } else {
        let n = line_length(s.drop_last());
        assert forall|i: int| 0 <= i < n implies s[i] != '\n' by {
            assert(s[i] == s.drop_last()[i]);
        }
        if n < s.len() - 1 {
            assert(s[n] == s.drop_last()[n]);
            n
        } else if s.last() == '\n' {
            n
        } else {
            n + 1
        }
    }
}

/// A quote is the last one where none stands behind it.
proof fn up_to_quote(value: Seq<char>, behind: Seq<char>)
    requires
        forall|i: int| 0 <= i < behind.len() ==> behind[i] != '"',
    ensures
        before_last_quote(value.push('"') + behind) == Some(value),
    decreases behind.len(),
{
    let s = value.push('"') + behind;
    if behind.len() == 0 {
        assert(s == value.push('"'));
        assert(s.drop_last() == value);
    } else {
        assert(s.last() == behind[behind.len() - 1]);
        assert(s.drop_last() == value.push('"') + behind.drop_last());
        up_to_quote(value, behind.drop_last());
    }
}

/// Without a quote there is none to be the last.
proof fn no_last_quote(s: Seq<char>)
    requires
        !s.contains('"'),
    ensures
        before_last_quote(s) is None,
    decreases s.len(),
{
    if s.len() > 0 {
        let front = s.drop_last();
        assert(s[s.len() - 1] != '"');
        assert forall|i: int| 0 <= i < front.len() implies front[i] != '"' by {
            assert(front[i] == s[i]);
        }
        no_last_quote(front);
    }
}

/// The parts of a text hold no character that it does not.
proof fn parts_hold_no_more(s: Seq<char>, sep: char, c: char)
    requires
        !s.contains(c),
    ensures
        forall|i: int| 0 <= i < split(s, sep).len() ==> !(#[trigger] split(s, sep)[i]).contains(c),
    decreases s.len(),
{
    if s.len() > 0 {
        let front = s.drop_last();
        assert forall|i: int| 0 <= i < front.len() implies front[i] != c by {
            assert(front[i] == s[i]);
        }
        parts_hold_no_more(front, sep, c);
        split_parts(front, sep);
        let parts = split(front, sep);
        let all = split(s, sep);
        assert(s[s.len() - 1] != c);
        assert forall|i: int| 0 <= i < all.len() implies !(#[trigger] all[i]).contains(c) by {
            if i < parts.len() - 1 {
                assert(all[i] == parts[i]);
            } else if all[i].contains(c) {
                let k = choose|k: int| 0 <= k < all[i].len() && all[i][k] == c;
                if s.last() == sep {
                    assert(i < parts.len());
                    assert(all[i] == parts[i]);
                } else {
                    let last = parts.last();
                    assert(all[i] == last.push(s.last()));
                    assert(!parts[parts.len() - 1].contains(c));
                    assert(k < last.len() && last[k] == c);
                }
            }
        }
    }
}

/// What stands in quotes at the beginning of a text.
proof fn quoted_is_read(value: Seq<char>, behind: Seq<char>)
    requires
        may_follow(value, behind),
    ensures
        quoted_first(seq!['"'] + value + seq!['"'] + behind) == Some(value),
{
    let quoted = seq!['"'] + value + seq!['"'];
    let s = quoted + behind;
    unquoted_and_quoted(quoted, value);
    if behind.len() == 0 {
        assert(s == quoted);
    } else {
        assert(s.last() == behind.last());
        assert(unquoted(s) is None);
        let n = line_length(behind);
        let own = behind.take(n);
        let line = value.push('"') + own;
        let more = behind.skip(n);
        assert(s.drop_first() == line + more);
        if line.contains('\n') {
            let i = choose|i: int| 0 <= i < line.len() && line[i] == '\n';
            if i < value.len() {
                assert(value[i] == '\n');
            } else {
                assert(behind[i - value.len() - 1] == '\n');
            }
        }
        first_line_of(line, more);
        assert forall|i: int| 0 <= i < own.len() implies own[i] != '"' by {
            assert(own[i] == behind[i]);
        }
        up_to_quote(value, own);
    }
}

/// An attribute that a field of a message gives a value has that value, wherever
/// in the message the field stands, and whatever other attributes begin with the
/// same letters.
pub proof fn attribute_is_read(
    fields: Seq<Seq<char>>,
    k: int,
    name: Seq<char>,
    value: Seq<char>,
    behind: Seq<char>,
)
    requires
        gives(fields, k, name, value, behind),
    ensures
        attribute_value(join(fields, ','), name) == Some(value),
{
    split_joined(fields, ',');
    let prefix = name.push('=');
    let field = fields[k];
    assert(prefix.is_prefix_of(field));
    field_is_first(fields, k, prefix);
    assert(field.skip(name.len() as int + 1) == seq!['"'] + value + seq!['"'] + behind);
    quoted_is_read(value, behind);
}

/// An attribute that no field names has no value, and neither has one whose
/// value does not begin with a quote, or has no quote behind that one.
pub proof fn attribute_is_not_there(fields: Seq<Seq<char>>, name: Seq<char>)
    requires
        are_fields(fields),
        forall|j: int|
            0 <= j < fields.len() && name.push('=').is_prefix_of(#[trigger] fields[j]) ==> {
                ||| fields[j].len() == name.len() + 1
                ||| fields[j][name.len() as int + 1] != '"'
                ||| !fields[j].skip(name.len() as int + 2).contains('"')
            },
    ensures
        attribute_value(join(fields, ','), name) is None,
{
    split_joined(fields, ',');
    let prefix = name.push('=');
    if exists|k: int| 0 <= k < fields.len() && prefix.is_prefix_of(#[trigger] fields[k]) {
        let k = choose|k: int| 0 <= k < fields.len() && prefix.is_prefix_of(#[trigger] fields[k]);
        let first = first_with(fields, k, prefix);
        field_is_first(fields, first, prefix);
        let s = fields[first].skip(name.len() as int + 1);
        if s.len() > 0 && s[0] == '"' {
            let behind = s.drop_first();
            assert(behind == fields[first].skip(name.len() as int + 2));
            if unquoted(s) is Some {
                assert(behind[behind.len() - 1] == '"');
            }
            split_parts(behind, '\n');
            parts_hold_no_more(behind, '\n', '"');
            no_last_quote(first_line(behind));
        }
    } else {
        field_is_missing(fields, prefix);
    }
}

/// The first field with a prefix, given one that has it.
proof fn first_with(fields: Seq<Seq<char>>, k: int, prefix: Seq<char>) -> (first: int)
    requires
        0 <= k < fields.len(),
        prefix.is_prefix_of(fields[k]),
    ensures
        0 <= first < fields.len(),
        prefix.is_prefix_of(fields[first]),
        forall|j: int| 0 <= j < first ==> !prefix.is_prefix_of(#[trigger] fields[j]),
    decreases k,
{
    if exists|j: int| 0 <= j < k && prefix.is_prefix_of(#[trigger] fields[j]) {
        let j = choose|j: int| 0 <= j < k && prefix.is_prefix_of(#[trigger] fields[j]);
        first_with(fields, j, prefix)
    } else {
        k
    }
}

/// A message that gives the number `n` of a breakpoint, of however many digits,
/// says that the program was stopped at the `n`th of the breakpoints, counted
/// from one. There is no such breakpoint where the number is greater than there
/// are breakpoints.
pub proof fn stopped_at_the_numbered(
    breakpoints: Seq<Seq<char>>,
    fields: Seq<Seq<char>>,
    k: int,
    n: nat,
    behind: Seq<char>,
)
    requires
        gives(fields, k, "bkptno"@, decimal(n), behind),
    ensures
        1 <= n <= breakpoints.len() && n <= usize::MAX ==> stop(breakpoints, join(fields, ','))
            == Some(Ok::<Seq<char>, Seq<char>>(breakpoints[n - 1])),
        breakpoints.len() < n <= usize::MAX ==> stop(breakpoints, join(fields, ',')) == Some(
            Err::<Seq<char>, Seq<char>>("Unknown breakpoint"@),
        ),
        n == 0 || n > usize::MAX ==> stop(breakpoints, join(fields, ',')) is None,
{
    attribute_is_read(fields, k, "bkptno"@, decimal(n), behind);
    decimal_is_read(n);
}

/// A message whose number of a breakpoint is no number does not say where the
/// program was stopped, and neither does one that has none.
pub proof fn stopped_nowhere(
    breakpoints: Seq<Seq<char>>,
    fields: Seq<Seq<char>>,
    k: int,
    value: Seq<char>,
    behind: Seq<char>,
    i: int,
)
    requires
        are_fields(fields),
        gives(fields, k, "bkptno"@, value, behind) && 0 <= i < value.len() && !('0' <= value[i]
            <= '9') && (i > 0 || value[i] != '+') || (forall|j: int|
            0 <= j < fields.len() ==> !"bkptno"@.push('=').is_prefix_of(#[trigger] fields[j])),
    ensures
        stop(breakpoints, join(fields, ',')) is None,
{
    if gives(fields, k, "bkptno"@, value, behind) && 0 <= i < value.len() && !('0' <= value[i]
        <= '9') && (i > 0 || value[i] != '+') {
        attribute_is_read(fields, k, "bkptno"@, value, behind);
        only_digits_are_read(value, i);
    } else {
        attribute_is_not_there(fields, "bkptno"@);
    }
}

} // verus!
