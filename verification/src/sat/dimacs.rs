use vstd::prelude::*;
use vstd::string::*;
use crate::fol::parser::{blank, is_blank};
use crate::sat::clauses::{with_literal, Clause, Clauses, Literal, LiteralModel};
use crate::text::{same_text, slice_of};

verus! {

/// Where the run of characters other than blanks that starts at `from` ends.
pub open spec fn field_end(line: Seq<char>, from: nat) -> nat
    decreases line.len() - from,
{
    if from < line.len() && !is_blank(line[from as int]) {
        field_end(line, from + 1)
    } else {
        from
    }
}

/// A field ends at or after its start, within the line, and behind its
/// start where that is no blank.
pub proof fn lemma_field_end(line: Seq<char>, from: nat)
    requires
        from <= line.len(),
    ensures
        from <= field_end(line, from) <= line.len(),
        from < line.len() && !is_blank(line[from as int]) ==> field_end(line, from) > from,
    decreases line.len() - from,
{
    if from < line.len() {
        lemma_field_end(line, from + 1);
    }
}

/// The fields of a line from position `pos` on: the maximal runs of
/// characters other than blanks.
pub open spec fn fields_from(line: Seq<char>, pos: nat) -> Seq<Seq<char>>
    decreases line.len() - pos,
{
    if pos >= line.len() {
        Seq::empty()
    } else if is_blank(line[pos as int]) {
        fields_from(line, pos + 1)
    } else {
        let end = field_end(line, pos);
        proof {
            lemma_field_end(line, pos);
        }
        seq![line.subrange(pos as int, end as int)] + fields_from(line, end)
    }
}

/// The fields of a line.
pub open spec fn fields_of(line: Seq<char>) -> Seq<Seq<char>> {
    fields_from(line, 0)
}

/// One digit or more, and nothing else.
pub open spec fn is_number(s: Seq<char>) -> bool {
    &&& s.len() > 0
    &&& forall|i: int| 0 <= i < s.len() ==> '0' <= #[trigger] s[i] && s[i] <= '9'
}

/// The literal that a field denotes: a number stands for the symbol of
/// that name, a number behind a minus sign for its negation.
pub open spec fn literal_of_field(field: Seq<char>) -> Option<LiteralModel> {
    if field.len() > 0 && field[0] == '-' {
        if is_number(field.subrange(1, field.len() as int)) {
            Some(LiteralModel::Neg(field.subrange(1, field.len() as int)))
        } else {
            None
        }
    } else if is_number(field) {
        Some(LiteralModel::Pos(field))
    } else {
        None
    }
}

/// The clause of a line, read from its field `i` on into `acc`: each field
/// gives a literal, up to the field `0` or the end of the line. A field
/// that is no number is a mistake.
pub open spec fn clause_from_fields(fields: Seq<Seq<char>>, i: nat, acc: Seq<LiteralModel>) -> Option<
    Seq<LiteralModel>,
>
    decreases fields.len() - i,
{
    if i >= fields.len() {
        Some(acc)
    } else if fields[i as int] == "0"@ {
        Some(acc)
    } else {
        match literal_of_field(fields[i as int]) {
            Some(l) => clause_from_fields(fields, i + 1, with_literal(acc, l)),
            None => None,
        }
    }
}

/// A header: `p cnf`, the number of variables and the number of clauses.
pub open spec fn is_header(fields: Seq<Seq<char>>) -> bool {
    fields.len() >= 4 && fields[0] == "p"@ && fields[1] == "cnf"@
}

/// Mathematical model of a mistake in a text in the DIMACS format.
pub enum DimacsErrorModel {
    InvalidHeader(nat),
    InvalidLiteral(nat),
}

/// A mistake in a text in the DIMACS format, with the index of its line.
#[derive(Debug)]
pub enum DimacsError {
    /// A line that starts with `p` and is no header.
    InvalidHeader(usize),
    /// A field of a clause that is no number.
    InvalidLiteral(usize),
}

impl View for DimacsError {
    type V = DimacsErrorModel;

    open spec fn view(&self) -> DimacsErrorModel {
        match self {
            DimacsError::InvalidHeader(i) => DimacsErrorModel::InvalidHeader(*i as nat),
            DimacsError::InvalidLiteral(i) => DimacsErrorModel::InvalidLiteral(*i as nat),
        }
    }
}

/// The clause set of a text in the DIMACS format, read from line `i` on
/// after the clauses `acc`. A line is told by its first field. One that
/// starts with `c` is a comment and is passed over. One that starts with
/// `p` is the header; it is checked and passed over. A blank line and one
/// that starts with `%` end the text. Any other line is a clause.
pub open spec fn clauses_from_lines(lines: Seq<Seq<char>>, i: nat, acc: Seq<Seq<LiteralModel>>)
    -> Result<Seq<Seq<LiteralModel>>, DimacsErrorModel>
    decreases lines.len() - i,
{
    if i >= lines.len() {
        Ok(acc)
    } else {
        let fields = fields_of(lines[i as int]);
        if fields.len() == 0 {
            Ok(acc)
        } else if fields[0][0] == 'c' {
            clauses_from_lines(lines, i + 1, acc)
        } else if fields[0][0] == 'p' {
            if is_header(fields) {
                clauses_from_lines(lines, i + 1, acc)
            } else {
                Err(DimacsErrorModel::InvalidHeader(i))
            }
        } else if fields[0][0] == '%' {
            Ok(acc)
        } else {
            match clause_from_fields(fields, 0, Seq::empty()) {
                Some(clause) => clauses_from_lines(lines, i + 1, acc.push(clause)),
                None => Err(DimacsErrorModel::InvalidLiteral(i)),
            }
        }
    }
}

/// The clause set of a text in the DIMACS format, given by its lines.
pub open spec fn dimacs_clauses(lines: Seq<Seq<char>>) -> Result<
    Seq<Seq<LiteralModel>>,
    DimacsErrorModel,
> {
    clauses_from_lines(lines, 0, Seq::empty())
}

/// The texts of a list, in order.
pub open spec fn texts_view(v: Vec<String>) -> Seq<Seq<char>> {
    Seq::new(v.len() as nat, |i: int| v[i]@)
}

/// Every field is a text of one character or more.
pub proof fn lemma_fields_nonempty(line: Seq<char>, pos: nat, k: int)
    requires
        pos <= line.len(),
        0 <= k < fields_from(line, pos).len(),
    ensures
        fields_from(line, pos)[k].len() > 0,
    decreases line.len() - pos,
{
    if pos >= line.len() {
    } else if is_blank(line[pos as int]) {
        lemma_fields_nonempty(line, pos + 1, k);
    } else {
        lemma_field_end(line, pos);
        if k > 0 {
            lemma_fields_nonempty(line, field_end(line, pos), k - 1);
        }
    }
}

/// Where the field that starts at `from` ends.
pub fn scan_field(line: &str, from: usize, n: usize) -> (end: usize)
    requires
        n == line@.len(),
        from <= n,
    ensures
        end == field_end(line@, from as nat),
        from <= end <= n,
{
    let mut end = from;
    while end < n && !blank(line.get_char(end))
        invariant
            from <= end <= n,
            n == line@.len(),
            field_end(line@, from as nat) == field_end(line@, end as nat),
        decreases n - end,
    {
        end += 1;
    }
    end
}

/// The fields of a line: what stands between its blanks.
pub fn split_fields(line: &str) -> (fields: Vec<String>)
    ensures
        texts_view(fields) == fields_of(line@),
{
    let n = line.unicode_len();
    let mut fields: Vec<String> = Vec::new();
    let mut pos: usize = 0;
    assert(texts_view(fields) + fields_from(line@, 0) =~= fields_from(line@, 0));
    while pos < n
        invariant
            pos <= n,
            n == line@.len(),
            fields_of(line@) == texts_view(fields) + fields_from(line@, pos as nat),
        decreases n - pos,
    {
        let ghost done = texts_view(fields);
        if blank(line.get_char(pos)) {
            pos += 1;
        } else {
            let end = scan_field(line, pos, n);
            fields.push(slice_of(line, pos, end));
            proof {
                lemma_field_end(line@, pos as nat);
                let field = line@.subrange(pos as int, end as int);
                assert(texts_view(fields) =~= done.push(field));
                assert(done.push(field) + fields_from(line@, end as nat) =~= done + (seq![field]
                    + fields_from(line@, end as nat)));
            }
            pos = end;
        }
    }
    assert(texts_view(fields) + Seq::<Seq<char>>::empty() =~= texts_view(fields));
    fields
}

/// Whether the text is one digit or more, and nothing else.
pub fn number(s: &str) -> (b: bool)
    ensures
        b == is_number(s@),
{
    let n = s.unicode_len();
    if n == 0 {
        return false;
    }
    let mut i: usize = 0;
    while i < n
        invariant
            i <= n,
            n == s@.len(),
            forall|j: int| 0 <= j < i ==> '0' <= #[trigger] s@[j] && s@[j] <= '9',
        decreases n - i,
    {
        let c = s.get_char(i);
        if !(c >= '0' && c <= '9') {
            return false;
        }
        i += 1;
    }
    true
}

/// The literal that a field denotes, if it denotes one.
pub fn literal_from_field(field: &str) -> (l: Option<Literal>)
    ensures
        match l {
            Some(lit) => literal_of_field(field@) == Some(lit@),
            None => literal_of_field(field@) is None,
        },
{
    let n = field.unicode_len();
    if n > 0 && field.get_char(0) == '-' {
        let name = slice_of(field, 1, n);
        if number(name.as_str()) {
            Some(Literal::neg(name))
        } else {
            None
        }
    } else if number(field) {
        Some(Literal::pos(String::from_str(field)))
    } else {
        None
    }
}

/// The clause that the fields of a line denote, if they denote one.
pub fn clause_from_line(fields: &Vec<String>) -> (clause: Option<Clause>)
    ensures
        match clause {
            Some(c) => clause_from_fields(texts_view(*fields), 0, Seq::empty()) == Some(c@)
                && c.well_formed(),
            None => clause_from_fields(texts_view(*fields), 0, Seq::empty()) is None,
        },
{
    let mut set = Clause::new();
    let mut i: usize = 0;
    while i < fields.len()
        invariant
            i <= fields.len(),
            set.well_formed(),
            clause_from_fields(texts_view(*fields), 0, Seq::empty()) == clause_from_fields(
                texts_view(*fields),
                i as nat,
                set@,
            ),
        decreases fields.len() - i,
    {
        assert(texts_view(*fields)[i as int] == fields[i as int]@);
        if same_text(fields[i].as_str(), "0") {
            return Some(set);
        }
        match literal_from_field(fields[i].as_str()) {
            Some(l) => {
                set.insert(l);
            },
            None => {
                return None;
            },
        }
        i += 1;
    }
    Some(set)
}

/// The clause set of a text in the DIMACS format, given by its lines.
pub fn parse(lines: &Vec<String>) -> (r: Result<Clauses, DimacsError>)
    ensures
        match r {
            Ok(cs) => dimacs_clauses(texts_view(*lines)) == Ok::<
                Seq<Seq<LiteralModel>>,
                DimacsErrorModel,
            >(cs@) && cs.well_formed(),
            Err(e) => dimacs_clauses(texts_view(*lines)) == Err::<
                Seq<Seq<LiteralModel>>,
                DimacsErrorModel,
            >(e@),
        },
{
    let mut clauses = Clauses::new();
    let mut i: usize = 0;
    while i < lines.len()
        invariant
            i <= lines.len(),
            clauses.well_formed(),
            dimacs_clauses(texts_view(*lines)) == clauses_from_lines(
                texts_view(*lines),
                i as nat,
                clauses@,
            ),
        decreases lines.len() - i,
    {
        assert(texts_view(*lines)[i as int] == lines[i as int]@);
        let fields = split_fields(lines[i].as_str());
        if fields.len() == 0 {
            return Ok(clauses);
        }
        proof {
            lemma_fields_nonempty(lines[i as int]@, 0, 0);
            assert(texts_view(fields)[0] == fields[0]@);
        }
        let first = fields[0].as_str().get_char(0);
        if first == 'c' {
        } else if first == 'p' {
            let header = fields.len() >= 4 && same_text(fields[0].as_str(), "p") && same_text(
                fields[1].as_str(),
                "cnf",
            );
            assert(fields.len() >= 2 ==> texts_view(fields)[1] == fields[1]@);
            if !header {
                return Err(DimacsError::InvalidHeader(i));
            }
        } else if first == '%' {
            return Ok(clauses);
        } else {
            match clause_from_line(&fields) {
                Some(clause) => {
                    clauses.push(clause);
                },
                None => {
                    return Err(DimacsError::InvalidLiteral(i));
                },
            }
        }
        i += 1;
    }
    Ok(clauses)
}

} // verus!
