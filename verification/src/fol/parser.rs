use vstd::prelude::*;
use vstd::string::*;
use crate::fol::ast::{Formula, FormulaModel, Raw, Term, TermModel, Var, terms_view};
use crate::text::{same_text, slice_of};

verus! {

/// A blank: space, tab, line feed or carriage return.
pub open spec fn is_blank(c: char) -> bool {
    c == ' ' || c == '\t' || c == '\n' || c == '\r'
}

/// A letter or a digit of ASCII.
pub open spec fn is_alphanumeric(c: char) -> bool {
    ('a' <= c && c <= 'z') || ('A' <= c && c <= 'Z') || ('0' <= c && c <= '9')
}

/// A character that is a token by itself.
pub open spec fn is_punctuation(c: char) -> bool {
    c == '.' || c == ',' || c == '(' || c == ')'
}

/// A character of the arrows `=>` and `<=>`.
pub open spec fn is_arrow_char(c: char) -> bool {
    c == '<' || c == '=' || c == '>'
}

/// Where the run of letters and digits that starts at `from` ends.
pub open spec fn word_end(input: Seq<char>, from: nat) -> nat
    decreases input.len() - from,
{
    if from < input.len() && is_alphanumeric(input[from as int]) {
        word_end(input, from + 1)
    } else {
        from
    }
}

/// Where the run of arrow characters that starts at `from` ends.
pub open spec fn arrow_end(input: Seq<char>, from: nat) -> nat
    decreases input.len() - from,
{
    if from < input.len() && is_arrow_char(input[from as int]) {
        arrow_end(input, from + 1)
    } else {
        from
    }
}

/// A run ends at or after its start, and within the input.
pub proof fn lemma_run_end(input: Seq<char>, from: nat)
    requires
        from <= input.len(),
    ensures
        from <= word_end(input, from) <= input.len(),
        from <= arrow_end(input, from) <= input.len(),
        from < input.len() && is_alphanumeric(input[from as int]) ==> word_end(input, from) > from,
        from < input.len() && is_arrow_char(input[from as int]) ==> arrow_end(input, from) > from,
    decreases input.len() - from,
{
    if from < input.len() {
        lemma_run_end(input, from + 1);
    }
}

/// The tokens of the input from position `pos` on, or nothing if a
/// character is met that belongs to no token. Blanks separate tokens; a
/// punctuation character is a token; so is a maximal run of letters and
/// digits, and a maximal run of arrow characters.
pub open spec fn tokens_from(input: Seq<char>, pos: nat) -> Option<Seq<Seq<char>>>
    decreases input.len() - pos,
{
    if pos >= input.len() {
        Some(Seq::empty())
    } else {
        let c = input[pos as int];
        if is_blank(c) {
            tokens_from(input, pos + 1)
        } else if is_punctuation(c) {
            match tokens_from(input, pos + 1) {
                Some(rest) => Some(seq![seq![c]] + rest),
                None => None,
            }
        } else if is_alphanumeric(c) {
            let end = word_end(input, pos);
            proof {
                lemma_run_end(input, pos);
            }
            match tokens_from(input, end) {
                Some(rest) => Some(seq![input.subrange(pos as int, end as int)] + rest),
                None => None,
            }
        } else if is_arrow_char(c) {
            let end = arrow_end(input, pos);
            proof {
                lemma_run_end(input, pos);
            }
            match tokens_from(input, end) {
                Some(rest) => Some(seq![input.subrange(pos as int, end as int)] + rest),
                None => None,
            }
        } else {
            None
        }
    }
}

/// The first character from position `pos` on that belongs to no token,
/// if there is one.
pub open spec fn stray_from(input: Seq<char>, pos: nat) -> Option<char>
    decreases input.len() - pos,
{
    if pos >= input.len() {
        None
    } else {
        let c = input[pos as int];
        if is_blank(c) || is_punctuation(c) {
            stray_from(input, pos + 1)
        } else if is_alphanumeric(c) {
            proof {
                lemma_run_end(input, pos);
            }
            stray_from(input, word_end(input, pos))
        } else if is_arrow_char(c) {
            proof {
                lemma_run_end(input, pos);
            }
            stray_from(input, arrow_end(input, pos))
        } else {
            Some(c)
        }
    }
}

/// The tokens of the input.
pub open spec fn tokens_of(input: Seq<char>) -> Option<Seq<Seq<char>>> {
    tokens_from(input, 0)
}

/// Mathematical model of a parse error.
pub enum ParserErrorModel {
    EndOfTokens,
    WrongTerm,
    LexerError,
    Unexpected(Seq<char>),
}

/// Why an input is no formula.
#[derive(Debug)]
pub enum ParserError {
    /// The input ends where a token is needed.
    EndOfTokens,
    /// A term of the wrong kind.
    WrongTerm,
    /// A character that belongs to no token.
    LexerError,
    /// A token that cannot stand where it stands.
    Unexpected(String),
}

impl View for ParserError {
    type V = ParserErrorModel;

    open spec fn view(&self) -> ParserErrorModel {
        match self {
            ParserError::EndOfTokens => ParserErrorModel::EndOfTokens,
            ParserError::WrongTerm => ParserErrorModel::WrongTerm,
            ParserError::LexerError => ParserErrorModel::LexerError,
            ParserError::Unexpected(t) => ParserErrorModel::Unexpected(t@),
        }
    }
}

/// Every character of the token is a letter or a digit.
pub open spec fn is_word(t: Seq<char>) -> bool {
    forall|i: int| 0 <= i < t.len() ==> is_alphanumeric(#[trigger] t[i])
}

/// The token is one of the words of the language.
pub open spec fn is_keyword(t: Seq<char>) -> bool {
    t == "not"@ || t == "=>"@ || t == "<=>"@ || t == "and"@ || t == "or"@ || t == "forall"@ || t
        == "exists"@
}

/// An identifier at `pos`: a word that is no keyword.
pub open spec fn identifier_at(ts: Seq<Seq<char>>, pos: nat) -> Result<
    (Seq<char>, nat),
    ParserErrorModel,
> {
    if pos < ts.len() {
        let t = ts[pos as int];
        if is_word(t) && !is_keyword(t) {
            Ok((t, pos + 1))
        } else {
            Err(ParserErrorModel::Unexpected(t))
        }
    } else {
        Err(ParserErrorModel::EndOfTokens)
    }
}

/// A term at `pos`: a function application where one can be read, else a
/// variable.
pub open spec fn term_at(ts: Seq<Seq<char>>, pos: nat) -> Result<(TermModel, nat), ParserErrorModel>
    decreases ts.len() - pos, 3nat,
{
    match func_at(ts, pos) {
        Ok(r) => Ok(r),
        Err(_) => match identifier_at(ts, pos) {
            Ok((name, next)) => Ok((TermModel::Var(name), next)),
            Err(e) => Err(e),
        },
    }
}

/// A function application at `pos`: an identifier and a list of arguments.
pub open spec fn func_at(ts: Seq<Seq<char>>, pos: nat) -> Result<(TermModel, nat), ParserErrorModel>
    decreases ts.len() - pos, 2nat,
{
    match identifier_at(ts, pos) {
        Ok((name, next)) => match list_at(ts, next) {
            Ok((args, after)) => Ok((TermModel::Func(name, args), after)),
            Err(e) => Err(e),
        },
        Err(e) => Err(e),
    }
}

/// A list of terms at `pos`: between parentheses, separated by commas.
pub open spec fn list_at(ts: Seq<Seq<char>>, pos: nat) -> Result<
    (Seq<TermModel>, nat),
    ParserErrorModel,
>
    decreases ts.len() - pos, 5nat,
{
    if pos < ts.len() {
        if ts[pos as int] == "("@ {
            items_at(ts, pos + 1, true, Seq::empty())
        } else {
            Err(ParserErrorModel::Unexpected(ts[pos as int]))
        }
    } else {
        Err(ParserErrorModel::EndOfTokens)
    }
}

/// The rest of a list of terms at `pos`, after the items `acc`. A term is
/// read where `want_term` holds, a comma where it does not; a closing
/// parenthesis ends the list.
pub open spec fn items_at(ts: Seq<Seq<char>>, pos: nat, want_term: bool, acc: Seq<TermModel>)
    -> Result<(Seq<TermModel>, nat), ParserErrorModel>
    decreases ts.len() - pos, 4nat,
{
    if pos >= ts.len() {
        Err(ParserErrorModel::EndOfTokens)
    } else if ts[pos as int] == ")"@ {
        Ok((acc, pos + 1))
    } else if want_term {
        match term_at(ts, pos) {
            Ok((t, next)) => if pos < next <= ts.len() {
                items_at(ts, next, false, acc.push(t))
            } else {
                Err(ParserErrorModel::EndOfTokens)
            },
            Err(e) => Err(e),
        }
    } else if ts[pos as int] == ","@ {
        items_at(ts, pos + 1, true, acc)
    } else {
        Err(ParserErrorModel::Unexpected(ts[pos as int]))
    }
}

/// A formula at `pos`: a formula in parentheses or a simple formula, and
/// what follows it.
pub open spec fn formula_at(ts: Seq<Seq<char>>, pos: nat) -> Result<
    (FormulaModel, nat),
    ParserErrorModel,
>
    decreases ts.len() - pos, 3nat,
{
    if pos < ts.len() && ts[pos as int] == "("@ {
        match formula_at(ts, pos + 1) {
            Ok((inner, next)) => if pos < next <= ts.len() {
                if next < ts.len() {
                    if ts[next as int] == ")"@ {
                        tail_at(ts, next + 1, inner)
                    } else {
                        Err(ParserErrorModel::Unexpected(ts[next as int]))
                    }
                } else {
                    Err(ParserErrorModel::EndOfTokens)
                }
            } else {
                Err(ParserErrorModel::EndOfTokens)
            },
            Err(e) => Err(e),
        }
    } else {
        match simple_formula_at(ts, pos) {
            Ok((simple, next)) => if pos < next <= ts.len() {
                tail_at(ts, next, simple)
            } else {
                Err(ParserErrorModel::EndOfTokens)
            },
            Err(e) => Err(e),
        }
    }
}

/// What follows a formula `left` at `pos`: a connective and a formula, which
/// is joined to `left`; or nothing, before a closing parenthesis and at
/// the end.
pub open spec fn tail_at(ts: Seq<Seq<char>>, pos: nat, left: FormulaModel) -> Result<
    (FormulaModel, nat),
    ParserErrorModel,
>
    decreases ts.len() - pos, 1nat,
{
    if pos < ts.len() {
        let t = ts[pos as int];
        if t == "and"@ {
            match formula_at(ts, pos + 1) {
                Ok((right, next)) => Ok(
                    (FormulaModel::And(Box::new(left), Box::new(right)), next),
                ),
                Err(e) => Err(e),
            }
        } else if t == "or"@ {
            match formula_at(ts, pos + 1) {
                Ok((right, next)) => Ok((FormulaModel::Or(Box::new(left), Box::new(right)), next)),
                Err(e) => Err(e),
            }
        } else if t == "=>"@ {
            match formula_at(ts, pos + 1) {
                Ok((right, next)) => Ok(
                    (FormulaModel::Implies(Box::new(left), Box::new(right)), next),
                ),
                Err(e) => Err(e),
            }
        } else if t == "<=>"@ {
            match formula_at(ts, pos + 1) {
                Ok((right, next)) => Ok(
                    (FormulaModel::Iff(Box::new(left), Box::new(right)), next),
                ),
                Err(e) => Err(e),
            }
        } else if t == ")"@ {
            Ok((left, pos))
        } else {
            Err(ParserErrorModel::Unexpected(t))
        }
    } else {
        Ok((left, pos))
    }
}

/// A simple formula at `pos`: a quantification, a negation or an atom.
pub open spec fn simple_formula_at(ts: Seq<Seq<char>>, pos: nat) -> Result<
    (FormulaModel, nat),
    ParserErrorModel,
>
    decreases ts.len() - pos, 2nat,
{
    if pos < ts.len() {
        let t = ts[pos as int];
        if t == "forall"@ {
            match quantified_at(ts, pos) {
                Ok((x, body, next)) => Ok((FormulaModel::ForAll(x, Box::new(body)), next)),
                Err(e) => Err(e),
            }
        } else if t == "exists"@ {
            match quantified_at(ts, pos) {
                Ok((x, body, next)) => Ok((FormulaModel::Exists(x, Box::new(body)), next)),
                Err(e) => Err(e),
            }
        } else if t == "not"@ {
            match formula_at(ts, pos + 1) {
                Ok((body, next)) => Ok((FormulaModel::Not(Box::new(body)), next)),
                Err(e) => Err(e),
            }
        } else {
            atom_at(ts, pos)
        }
    } else {
        Err(ParserErrorModel::EndOfTokens)
    }
}

/// A function application with a dot behind it stands at `pos`, where a
/// bound variable should stand.
pub open spec fn function_bound_at(ts: Seq<Seq<char>>, pos: nat) -> bool {
    match func_at(ts, pos) {
        Ok((_, next)) => next < ts.len() && ts[next as int] == "."@,
        Err(_) => false,
    }
}

/// The variable and the body of a quantification whose quantifier stands
/// at `pos`: a variable, a dot that may be left out, and a formula. A
/// function application in place of the variable is a term of the wrong
/// kind.
pub open spec fn quantified_at(ts: Seq<Seq<char>>, pos: nat) -> Result<
    (Seq<char>, FormulaModel, nat),
    ParserErrorModel,
>
    decreases ts.len() - pos, 1nat,
{
    if function_bound_at(ts, pos + 1) {
        Err(ParserErrorModel::WrongTerm)
    } else {
        match identifier_at(ts, pos + 1) {
            Ok((x, next)) => {
                let start = if next < ts.len() && ts[next as int] == "."@ {
                    next + 1
                } else {
                    next
                };
                match formula_at(ts, start) {
                    Ok((body, after)) => Ok((x, body, after)),
                    Err(e) => Err(e),
                }
            },
            Err(e) => Err(e),
        }
    }
}

/// An atom at `pos`: the name of a predicate and a list of arguments.
pub open spec fn atom_at(ts: Seq<Seq<char>>, pos: nat) -> Result<
    (FormulaModel, nat),
    ParserErrorModel,
> {
    match identifier_at(ts, pos) {
        Ok((name, next)) => match list_at(ts, next) {
            Ok((args, after)) => Ok((FormulaModel::Pred(name, args), after)),
            Err(e) => Err(e),
        },
        Err(e) => Err(e),
    }
}

/// The formula that the input denotes, or why it denotes none. Tokens
/// behind the formula are not read.
pub open spec fn parsed(input: Seq<char>) -> Result<FormulaModel, ParserErrorModel> {
    match tokens_of(input) {
        None => Err(ParserErrorModel::LexerError),
        Some(ts) => match formula_at(ts, 0) {
            Ok((f, _)) => Ok(f),
            Err(e) => Err(e),
        },
    }
}

/// Whether the character is a blank.
pub fn blank(c: char) -> (b: bool)
    ensures
        b == is_blank(c),
{
    c == ' ' || c == '\t' || c == '\n' || c == '\r'
}

/// Whether the character is a letter or a digit of ASCII.
pub fn alphanumeric(c: char) -> (b: bool)
    ensures
        b == is_alphanumeric(c),
{
    (c >= 'a' && c <= 'z') || (c >= 'A' && c <= 'Z') || (c >= '0' && c <= '9')
}

/// Whether the character is a token by itself.
pub fn punctuation(c: char) -> (b: bool)
    ensures
        b == is_punctuation(c),
{
    c == '.' || c == ',' || c == '(' || c == ')'
}

/// Whether the character belongs to an arrow.
pub fn arrow_char(c: char) -> (b: bool)
    ensures
        b == is_arrow_char(c),
{
    c == '<' || c == '=' || c == '>'
}

/// The tokens of an input, in order.
#[derive(Debug)]
pub struct TokenStream {
    pub tokens: Vec<String>,
}

impl View for TokenStream {
    type V = Seq<Seq<char>>;

    open spec fn view(&self) -> Seq<Seq<char>> {
        Seq::new(self.tokens.len() as nat, |i: int| self.tokens[i]@)
    }
}

/// A place in a token stream.
#[derive(Debug)]
pub struct TokenStreamIterator<'a> {
    pub stream: &'a TokenStream,
    pub i: usize,
}

impl TokenStream {
    pub fn new(tokens: Vec<String>) -> (stream: TokenStream)
        ensures
            stream.tokens == tokens,
    {
        TokenStream { tokens }
    }

    /// The place in front of the first token.
    pub fn iter(&self) -> (it: TokenStreamIterator<'_>)
        ensures
            it.stream == self,
            it.i == 0,
    {
        TokenStreamIterator { stream: self, i: 0 }
    }
}

impl<'a> TokenStreamIterator<'a> {
    /// The token at this place, if there is one.
    pub fn peek(&self) -> (t: Option<&'a str>)
        ensures
            match t {
                Some(token) => self.i < self.stream@.len() && token@ == self.stream@[self.i as int],
                None => self.i >= self.stream@.len(),
            },
    {
        if self.i >= self.stream.tokens.len() {
            None
        } else {
            Some(self.stream.tokens[self.i].as_str())
        }
    }

    /// The token at this place, if there is one; the place moves behind it.
    pub fn next(&mut self) -> (t: Option<&'a str>)
        ensures
            final(self).stream == old(self).stream,
            match t {
                Some(token) => old(self).i < old(self).stream@.len() && token@ == old(
                    self,
                ).stream@[old(self).i as int] && final(self).i == old(self).i + 1,
                None => old(self).i >= old(self).stream@.len() && final(self).i == old(self).i,
            },
    {
        if self.i >= self.stream.tokens.len() {
            None
        } else {
            let i = self.i;
            self.i += 1;
            Some(self.stream.tokens[i].as_str())
        }
    }
}

/// Where the run of letters and digits that starts at `from` ends.
pub fn scan_word(input: &str, from: usize, n: usize) -> (end: usize)
    requires
        n == input@.len(),
        from <= n,
    ensures
        end == word_end(input@, from as nat),
        from <= end <= n,
{
    let mut end = from;
    while end < n && alphanumeric(input.get_char(end))
        invariant
            from <= end <= n,
            n == input@.len(),
            word_end(input@, from as nat) == word_end(input@, end as nat),
        decreases n - end,
    {
        end += 1;
    }
    end
}

/// Where the run of arrow characters that starts at `from` ends.
pub fn scan_arrow(input: &str, from: usize, n: usize) -> (end: usize)
    requires
        n == input@.len(),
        from <= n,
    ensures
        end == arrow_end(input@, from as nat),
        from <= end <= n,
{
    let mut end = from;
    while end < n && arrow_char(input.get_char(end))
        invariant
            from <= end <= n,
            n == input@.len(),
            arrow_end(input@, from as nat) == arrow_end(input@, end as nat),
        decreases n - end,
    {
        end += 1;
    }
    end
}

/// What tokenising amounts to once `done` has been read and the input
/// from `pos` on is left.
pub open spec fn tokens_after(done: Seq<Seq<char>>, input: Seq<char>, pos: nat) -> Option<
    Seq<Seq<char>>,
> {
    match tokens_from(input, pos) {
        Some(rest) => Some(done + rest),
        None => None,
    }
}

/// Splits the input into tokens. A character that belongs to no token is
/// reported.
pub fn lex(input: &str) -> (r: Result<TokenStream, String>)
    ensures
        match r {
            Ok(stream) => tokens_of(input@) == Some(stream@),
            Err(message) => tokens_of(input@) is None && stray_from(input@, 0) is Some
                && message@ == "unexpected character "@ + seq![stray_from(input@, 0)->0],
        },
{
    let n = input.unicode_len();
    let mut stream = TokenStream { tokens: Vec::new() };
    let mut pos: usize = 0;
    assert(stream@ + tokens_from(input@, 0)->0 =~= tokens_from(input@, 0)->0);
    while pos < n
        invariant
            pos <= n,
            n == input@.len(),
            tokens_of(input@) == tokens_after(stream@, input@, pos as nat),
            stray_from(input@, 0) == stray_from(input@, pos as nat),
        decreases n - pos,
    {
        let c = input.get_char(pos);
        let ghost done = stream@;
        if blank(c) {
            pos += 1;
        } else if punctuation(c) {
            stream.tokens.push(slice_of(input, pos, pos + 1));
            proof {
                assert(input@.subrange(pos as int, pos + 1) =~= seq![c]);
                assert(stream@ =~= done.push(seq![c]));
                if tokens_from(input@, (pos + 1) as nat) is Some {
                    let rest = tokens_from(input@, (pos + 1) as nat)->0;
                    assert(done.push(seq![c]) + rest =~= done + (seq![seq![c]] + rest));
                }
            }
            pos += 1;
        } else if alphanumeric(c) {
            let end = scan_word(input, pos, n);
            stream.tokens.push(slice_of(input, pos, end));
            proof {
                lemma_run_end(input@, pos as nat);
                let token = input@.subrange(pos as int, end as int);
                assert(stream@ =~= done.push(token));
                if tokens_from(input@, end as nat) is Some {
                    let rest = tokens_from(input@, end as nat)->0;
                    assert(done.push(token) + rest =~= done + (seq![token] + rest));
                }
            }
            pos = end;
        } else if arrow_char(c) {
            let end = scan_arrow(input, pos, n);
            stream.tokens.push(slice_of(input, pos, end));
            proof {
                lemma_run_end(input@, pos as nat);
                let token = input@.subrange(pos as int, end as int);
                assert(stream@ =~= done.push(token));
                if tokens_from(input@, end as nat) is Some {
                    let rest = tokens_from(input@, end as nat)->0;
                    assert(done.push(token) + rest =~= done + (seq![token] + rest));
                }
            }
            pos = end;
        } else {
            let mut message = String::from_str("unexpected character ");
            message.append(input.substring_char(pos, pos + 1));
            assert(input@.subrange(pos as int, pos + 1) =~= seq![c]);
            return Err(message);
        }
    }
    assert(stream@ + Seq::<Seq<char>>::empty() =~= stream@);
    Ok(stream)
}

/// Whether every character of the token is a letter or a digit.
pub fn word(token: &str) -> (b: bool)
    ensures
        b == is_word(token@),
{
    let n = token.unicode_len();
    let mut i: usize = 0;
    while i < n
        invariant
            i <= n,
            n == token@.len(),
            forall|j: int| 0 <= j < i ==> is_alphanumeric(#[trigger] token@[j]),
        decreases n - i,
    {
        if !alphanumeric(token.get_char(i)) {
            return false;
        }
        i += 1;
    }
    true
}

/// Whether the token is one of the words of the language.
pub fn keyword(token: &str) -> (b: bool)
    ensures
        b == is_keyword(token@),
{
    same_text(token, "not") || same_text(token, "=>") || same_text(token, "<=>") || same_text(
        token,
        "and",
    ) || same_text(token, "or") || same_text(token, "forall") || same_text(token, "exists")
}

/// Reads an identifier.
pub fn parse_identifier(it: &mut TokenStreamIterator) -> (r: Result<String, ParserError>)
    ensures
        final(it).stream == old(it).stream,
        match r {
            Ok(name) => identifier_at(old(it).stream@, old(it).i as nat) == Ok::<
                (Seq<char>, nat),
                ParserErrorModel,
            >((name@, final(it).i as nat)) && old(it).i < final(it).i <= old(it).stream@.len(),
            Err(e) => identifier_at(old(it).stream@, old(it).i as nat) == Err::<
                (Seq<char>, nat),
                ParserErrorModel,
            >(e@),
        },
{
    match it.peek() {
        Some(token) => {
            if word(token) && !keyword(token) {
                it.next();
                Ok(String::from_str(token))
            } else {
                Err(ParserError::Unexpected(String::from_str(token)))
            }
        },
        None => Err(ParserError::EndOfTokens),
    }
}

/// Reads a variable.
pub fn parse_var(it: &mut TokenStreamIterator) -> (r: Result<Var, ParserError>)
    ensures
        final(it).stream == old(it).stream,
        match r {
            Ok(var) => identifier_at(old(it).stream@, old(it).i as nat) == Ok::<
                (Seq<char>, nat),
                ParserErrorModel,
            >((var@, final(it).i as nat)) && old(it).i < final(it).i <= old(it).stream@.len(),
            Err(e) => identifier_at(old(it).stream@, old(it).i as nat) == Err::<
                (Seq<char>, nat),
                ParserErrorModel,
            >(e@),
        },
{
    match parse_identifier(it) {
        Ok(id) => Ok(Var::from_string(id)),
        Err(e) => Err(e),
    }
}

/// Reads a function application.
pub fn parse_func(it: &mut TokenStreamIterator) -> (r: Result<Term, ParserError>)
    ensures
        final(it).stream == old(it).stream,
        match r {
            Ok(t) => func_at(old(it).stream@, old(it).i as nat) == Ok::<
                (TermModel, nat),
                ParserErrorModel,
            >((t@, final(it).i as nat)) && old(it).i < final(it).i <= old(it).stream@.len(),
            Err(e) => func_at(old(it).stream@, old(it).i as nat) == Err::<
                (TermModel, nat),
                ParserErrorModel,
            >(e@),
        },
    decreases old(it).stream@.len() - old(it).i, 2nat,
{
    let id = match parse_identifier(it) {
        Ok(id) => id,
        Err(e) => {
            return Err(e);
        },
    };
    let terms = match parse_list(it) {
        Ok(terms) => terms,
        Err(e) => {
            return Err(e);
        },
    };
    Ok(Term::func(id.as_str(), terms))
}

/// Reads a term: a function application where one can be read, else a
/// variable.
pub fn parse_term(it: &mut TokenStreamIterator) -> (r: Result<Term, ParserError>)
    ensures
        final(it).stream == old(it).stream,
        match r {
            Ok(t) => term_at(old(it).stream@, old(it).i as nat) == Ok::<
                (TermModel, nat),
                ParserErrorModel,
            >((t@, final(it).i as nat)) && old(it).i < final(it).i <= old(it).stream@.len(),
            Err(e) => term_at(old(it).stream@, old(it).i as nat) == Err::<
                (TermModel, nat),
                ParserErrorModel,
            >(e@),
        },
    decreases old(it).stream@.len() - old(it).i, 3nat,
{
    let start = it.i;
    match parse_func(it) {
        Ok(s) => Ok(s),
        Err(_) => {
            it.i = start;
            match parse_var(it) {
                Ok(var) => Ok(Term::Var(var)),
                Err(e) => Err(e),
            }
        },
    }
}

/// Reads a list of terms: between parentheses, separated by commas.
pub fn parse_list(it: &mut TokenStreamIterator) -> (r: Result<Vec<Term>, ParserError>)
    ensures
        final(it).stream == old(it).stream,
        match r {
            Ok(terms) => list_at(old(it).stream@, old(it).i as nat) == Ok::<
                (Seq<TermModel>, nat),
                ParserErrorModel,
            >((terms_view(terms), final(it).i as nat)) && old(it).i < final(it).i <= old(
                it,
            ).stream@.len(),
            Err(e) => list_at(old(it).stream@, old(it).i as nat) == Err::<
                (Seq<TermModel>, nat),
                ParserErrorModel,
            >(e@),
        },
    decreases old(it).stream@.len() - old(it).i, 5nat,
{
    match it.peek() {
        Some(token) => {
            if same_text(token, "(") {
                it.next();
            } else {
                return Err(ParserError::Unexpected(String::from_str(token)));
            }
        },
        None => {
            return Err(ParserError::EndOfTokens);
        },
    }
    let ghost ts = it.stream@;
    let ghost whole = list_at(ts, old(it).i as nat);
    let mut want_term = true;
    let mut terms: Vec<Term> = Vec::new();
    assert(terms_view(terms) =~= Seq::<TermModel>::empty());
    loop
        invariant
            it.stream == old(it).stream,
            ts == it.stream@,
            old(it).i < it.i,
            whole == list_at(ts, old(it).i as nat),
            whole == items_at(ts, it.i as nat, want_term, terms_view(terms)),
        decreases ts.len() - it.i,
    {
        let token = match it.peek() {
            Some(token) => token,
            None => {
                return Err(ParserError::EndOfTokens);
            },
        };
        if same_text(token, ")") {
            it.next();
            return Ok(terms);
        }
        if want_term {
            let ghost before = terms_view(terms);
            let term = match parse_term(it) {
                Ok(term) => term,
                Err(e) => {
                    return Err(e);
                },
            };
            terms.push(term);
            assert(terms_view(terms) =~= before.push(term@));
            want_term = false;
        } else {
            if same_text(token, ",") {
                it.next();
                want_term = true;
            } else {
                return Err(ParserError::Unexpected(String::from_str(token)));
            }
        }
    }
}

/// Reads the token `keyword`.
pub fn parse_keyword(it: &mut TokenStreamIterator, keyword: &str) -> (r: Result<(), ParserError>)
    ensures
        final(it).stream == old(it).stream,
        match r {
            Ok(_) => old(it).i < old(it).stream@.len() && old(it).stream@[old(it).i as int]
                == keyword@ && final(it).i == old(it).i + 1,
            Err(e) => final(it).i == old(it).i && (if old(it).i < old(it).stream@.len() {
                old(it).stream@[old(it).i as int] != keyword@ && e@ == ParserErrorModel::Unexpected(
                    old(it).stream@[old(it).i as int],
                )
            } else {
                e@ == ParserErrorModel::EndOfTokens
            }),
        },
{
    match it.peek() {
        Some(token) => {
            if same_text(token, keyword) {
                it.next();
                Ok(())
            } else {
                Err(ParserError::Unexpected(String::from_str(token)))
            }
        },
        None => Err(ParserError::EndOfTokens),
    }
}

/// The words that start a simple formula are three different words.
pub proof fn lemma_keywords_differ()
    ensures
        "forall"@ != "exists"@,
        "forall"@ != "not"@,
        "exists"@ != "not"@,
{
    reveal_strlit("forall");
    reveal_strlit("exists");
    reveal_strlit("not");
    assert("forall"@.len() == 6);
    assert("exists"@.len() == 6);
    assert("not"@.len() == 3);
    assert("forall"@[0] == 'f');
    assert("exists"@[0] == 'e');
}

/// Reads the variable and the body of a quantification, at its quantifier.
pub fn parse_quantified(it: &mut TokenStreamIterator) -> (r: Result<(Var, Formula<Raw>), ParserError>)
    requires
        old(it).i < old(it).stream@.len(),
    ensures
        final(it).stream == old(it).stream,
        match r {
            Ok(q) => quantified_at(old(it).stream@, old(it).i as nat) == Ok::<
                (Seq<char>, FormulaModel, nat),
                ParserErrorModel,
            >((q.0@, q.1@, final(it).i as nat)) && old(it).i < final(it).i <= old(
                it,
            ).stream@.len(),
            Err(e) => quantified_at(old(it).stream@, old(it).i as nat) == Err::<
                (Seq<char>, FormulaModel, nat),
                ParserErrorModel,
            >(e@),
        },
    decreases old(it).stream@.len() - old(it).i, 0nat,
{
    it.next();
    let start = it.i;
    let misplaced = match parse_func(it) {
        Ok(_) => match it.peek() {
            Some(token) => same_text(token, "."),
            None => false,
        },
        Err(_) => false,
    };
    if misplaced {
        return Err(ParserError::WrongTerm);
    }
    it.i = start;
    let var = match parse_var(it) {
        Ok(var) => var,
        Err(e) => {
            return Err(e);
        },
    };
    let _ = parse_keyword(it, ".");
    let formula = match parse_formula(it) {
        Ok(formula) => formula,
        Err(e) => {
            return Err(e);
        },
    };
    Ok((var, formula))
}

/// Reads a universal quantification.
pub fn parse_forall(it: &mut TokenStreamIterator) -> (r: Result<Formula<Raw>, ParserError>)
    requires
        old(it).i < old(it).stream@.len(),
        old(it).stream@[old(it).i as int] == "forall"@,
    ensures
        final(it).stream == old(it).stream,
        match r {
            Ok(f) => simple_formula_at(old(it).stream@, old(it).i as nat) == Ok::<
                (FormulaModel, nat),
                ParserErrorModel,
            >((f@, final(it).i as nat)) && old(it).i < final(it).i <= old(it).stream@.len(),
            Err(e) => simple_formula_at(old(it).stream@, old(it).i as nat) == Err::<
                (FormulaModel, nat),
                ParserErrorModel,
            >(e@),
        },
    decreases old(it).stream@.len() - old(it).i, 1nat,
{
    match parse_quantified(it) {
        Ok(q) => Ok(Formula::for_all(q.0, q.1)),
        Err(e) => Err(e),
    }
}

/// Reads an existential quantification.
pub fn parse_exists(it: &mut TokenStreamIterator) -> (r: Result<Formula<Raw>, ParserError>)
    requires
        old(it).i < old(it).stream@.len(),
        old(it).stream@[old(it).i as int] == "exists"@,
    ensures
        final(it).stream == old(it).stream,
        match r {
            Ok(f) => simple_formula_at(old(it).stream@, old(it).i as nat) == Ok::<
                (FormulaModel, nat),
                ParserErrorModel,
            >((f@, final(it).i as nat)) && old(it).i < final(it).i <= old(it).stream@.len(),
            Err(e) => simple_formula_at(old(it).stream@, old(it).i as nat) == Err::<
                (FormulaModel, nat),
                ParserErrorModel,
            >(e@),
        },
    decreases old(it).stream@.len() - old(it).i, 1nat,
{
    proof {
        lemma_keywords_differ();
    }
    match parse_quantified(it) {
        Ok(q) => Ok(Formula::there_exists(q.0, q.1)),
        Err(e) => Err(e),
    }
}

/// Reads a negation.
pub fn parse_not(it: &mut TokenStreamIterator) -> (r: Result<Formula<Raw>, ParserError>)
    requires
        old(it).i < old(it).stream@.len(),
        old(it).stream@[old(it).i as int] == "not"@,
    ensures
        final(it).stream == old(it).stream,
        match r {
            Ok(f) => simple_formula_at(old(it).stream@, old(it).i as nat) == Ok::<
                (FormulaModel, nat),
                ParserErrorModel,
            >((f@, final(it).i as nat)) && old(it).i < final(it).i <= old(it).stream@.len(),
            Err(e) => simple_formula_at(old(it).stream@, old(it).i as nat) == Err::<
                (FormulaModel, nat),
                ParserErrorModel,
            >(e@),
        },
    decreases old(it).stream@.len() - old(it).i, 1nat,
{
    proof {
        lemma_keywords_differ();
    }
    it.next();
    match parse_formula(it) {
        Ok(formula) => Ok(Formula::not(formula)),
        Err(e) => Err(e),
    }
}

/// Reads an atom: the name of a predicate and a list of arguments.
pub fn parse_pred(it: &mut TokenStreamIterator) -> (r: Result<Formula<Raw>, ParserError>)
    ensures
        final(it).stream == old(it).stream,
        match r {
            Ok(f) => atom_at(old(it).stream@, old(it).i as nat) == Ok::<
                (FormulaModel, nat),
                ParserErrorModel,
            >((f@, final(it).i as nat)) && old(it).i < final(it).i <= old(it).stream@.len(),
            Err(e) => atom_at(old(it).stream@, old(it).i as nat) == Err::<
                (FormulaModel, nat),
                ParserErrorModel,
            >(e@),
        },
{
    let id = match parse_identifier(it) {
        Ok(id) => id,
        Err(e) => {
            return Err(e);
        },
    };
    let terms = match parse_list(it) {
        Ok(terms) => terms,
        Err(e) => {
            return Err(e);
        },
    };
    Ok(Formula::pred(id.as_str(), terms))
}

/// Reads a simple formula: a quantification, a negation or an atom.
pub fn parse_simple_formula(it: &mut TokenStreamIterator) -> (r: Result<Formula<Raw>, ParserError>)
    ensures
        final(it).stream == old(it).stream,
        match r {
            Ok(f) => simple_formula_at(old(it).stream@, old(it).i as nat) == Ok::<
                (FormulaModel, nat),
                ParserErrorModel,
            >((f@, final(it).i as nat)) && old(it).i < final(it).i <= old(it).stream@.len(),
            Err(e) => simple_formula_at(old(it).stream@, old(it).i as nat) == Err::<
                (FormulaModel, nat),
                ParserErrorModel,
            >(e@),
        },
    decreases old(it).stream@.len() - old(it).i, 2nat,
{
    match it.peek() {
        Some(token) => {
            if same_text(token, "forall") {
                parse_forall(it)
            } else if same_text(token, "exists") {
                parse_exists(it)
            } else if same_text(token, "not") {
                parse_not(it)
            } else {
                parse_pred(it)
            }
        },
        None => Err(ParserError::EndOfTokens),
    }
}

/// Reads what follows the formula `left`: a connective and a formula, which
/// is joined to `left`; or nothing.
pub fn parse_formula_tail(it: &mut TokenStreamIterator, left: Formula<Raw>) -> (r: Result<
    Formula<Raw>,
    ParserError,
>)
    ensures
        final(it).stream == old(it).stream,
        match r {
            Ok(f) => tail_at(old(it).stream@, old(it).i as nat, left@) == Ok::<
                (FormulaModel, nat),
                ParserErrorModel,
            >((f@, final(it).i as nat)) && old(it).i <= final(it).i && (final(it).i <= old(
                it,
            ).stream@.len() || final(it).i == old(it).i),
            Err(e) => tail_at(old(it).stream@, old(it).i as nat, left@) == Err::<
                (FormulaModel, nat),
                ParserErrorModel,
            >(e@),
        },
    decreases old(it).stream@.len() - old(it).i, 1nat,
{
    match it.peek() {
        Some(token) => {
            if same_text(token, "and") {
                it.next();
                match parse_formula(it) {
                    Ok(right) => Ok(Formula::and(left, right)),
                    Err(e) => Err(e),
                }
            } else if same_text(token, "or") {
                it.next();
                match parse_formula(it) {
                    Ok(right) => Ok(Formula::or(left, right)),
                    Err(e) => Err(e),
                }
            } else if same_text(token, "=>") {
                it.next();
                match parse_formula(it) {
                    Ok(right) => Ok(Formula::implies(left, right)),
                    Err(e) => Err(e),
                }
            } else if same_text(token, "<=>") {
                it.next();
                match parse_formula(it) {
                    Ok(right) => Ok(Formula::iff(left, right)),
                    Err(e) => Err(e),
                }
            } else if same_text(token, ")") {
                Ok(left)
            } else {
                Err(ParserError::Unexpected(String::from_str(token)))
            }
        },
        None => Ok(left),
    }
}

/// Reads a formula: a formula in parentheses or a simple formula, and
/// what follows it.
pub fn parse_formula(it: &mut TokenStreamIterator) -> (r: Result<Formula<Raw>, ParserError>)
    ensures
        final(it).stream == old(it).stream,
        match r {
            Ok(f) => formula_at(old(it).stream@, old(it).i as nat) == Ok::<
                (FormulaModel, nat),
                ParserErrorModel,
            >((f@, final(it).i as nat)) && old(it).i < final(it).i <= old(it).stream@.len(),
            Err(e) => formula_at(old(it).stream@, old(it).i as nat) == Err::<
                (FormulaModel, nat),
                ParserErrorModel,
            >(e@),
        },
    decreases old(it).stream@.len() - old(it).i, 3nat,
{
    let parenthesized = match it.peek() {
        Some(token) => same_text(token, "("),
        None => false,
    };
    if parenthesized {
        it.next();
        let simple = match parse_formula(it) {
            Ok(simple) => simple,
            Err(e) => {
                return Err(e);
            },
        };
        match parse_keyword(it, ")") {
            Ok(_) => {},
            Err(e) => {
                return Err(e);
            },
        }
        parse_formula_tail(it, simple)
    } else {
        let simple = match parse_simple_formula(it) {
            Ok(simple) => simple,
            Err(e) => {
                return Err(e);
            },
        };
        parse_formula_tail(it, simple)
    }
}

/// Reads a formula from a text. Tokens behind the formula are not read.
pub fn parse(input: &str) -> (r: Result<Formula<Raw>, ParserError>)
    ensures
        match r {
            Ok(f) => parsed(input@) == Ok::<FormulaModel, ParserErrorModel>(f@),
            Err(e) => parsed(input@) == Err::<FormulaModel, ParserErrorModel>(e@),
        },
{
    let stream = match lex(input) {
        Ok(stream) => stream,
        Err(_) => {
            return Err(ParserError::LexerError);
        },
    };
    let mut it = stream.iter();
    parse_formula(&mut it)
}

} // verus!
