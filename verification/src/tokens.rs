//! The token model that the template language is parsed from and
//! expanded into: spans, punctuation, identifiers, literals and
//! delimited groups, together with their textual rendering.
use vstd::prelude::*;
use vstd::string::*;

verus! {

/// A source location. Tokens only carry it along; two spans are equal
/// exactly when their numbers are.
#[derive(Clone, Copy, PartialEq, Eq, Structural, Debug)]
pub struct Span(pub i32);

/// Whether a punctuation character is glued to the token after it.
#[derive(Clone, Copy, PartialEq, Eq, Structural, Debug)]
pub enum Spacing {
    Alone,
    Joint,
}

/// The brackets around a group; `Invisible` is a group without brackets.
#[derive(Clone, Copy, PartialEq, Eq, Structural, Debug)]
pub enum Delimiter {
    Parenthesis,
    Brace,
    Bracket,
    Invisible,
}

pub struct Ident {
    pub stringed: String,
    pub span: Span,
}

pub struct Punct {
    pub op: char,
    pub spacing: Spacing,
    pub span: Span,
}

/// What a literal holds: its source text as written, or the value of a
/// string or character literal that the library builds.
pub enum LiteralValue {
    Source(String),
    Str(String),
    Char(char),
}

pub struct Literal {
    pub value: LiteralValue,
    pub span: Span,
}

pub struct Group {
    pub delimiter: Delimiter,
    pub stream: TokenStream,
    pub span: Span,
}

pub struct TokenStream(pub Vec<TokenTree>);

pub enum TokenTree {
    Ident(Ident),
    Punct(Punct),
    Literal(Literal),
    Group(Group),
}

/// The mathematical value of a token tree.
#[verifier::ext_equal]
pub enum TT {
    Ident(Seq<char>, Span),
    Punct(char, Spacing, Span),
    Literal(LitV, Span),
    Group(Delimiter, Seq<TT>, Span),
}

/// The mathematical value of a literal.
pub enum LitV {
    Source(Seq<char>),
    Str(Seq<char>),
    Char(char),
}

pub open spec fn lit_view(v: LiteralValue) -> LitV {
    match v {
        LiteralValue::Source(t) => LitV::Source(t@),
        LiteralValue::Str(t) => LitV::Str(t@),
        LiteralValue::Char(c) => LitV::Char(c),
    }
}

pub open spec fn call_site_span() -> Span {
    Span(0)
}

pub open spec fn tree_view(t: TokenTree) -> TT
    decreases t,
{
    match t {
        TokenTree::Ident(i) => TT::Ident(i.stringed@, i.span),
        TokenTree::Punct(p) => TT::Punct(p.op, p.spacing, p.span),
        TokenTree::Literal(l) => TT::Literal(lit_view(l.value), l.span),
        TokenTree::Group(g) => TT::Group(g.delimiter, trees_view(g.stream.0@), g.span),
    }
}

pub open spec fn trees_view(s: Seq<TokenTree>) -> Seq<TT>
    decreases s,
{
    Seq::new(
        s.len(),
        |i: int|
            if 0 <= i < s.len() {
                tree_view(s[i])
            } else {
                TT::Punct(' ', Spacing::Alone, Span(0))
            },
    )
}

impl View for TokenTree {
    type V = TT;

    open spec fn view(&self) -> TT {
        tree_view(*self)
    }
}

impl View for TokenStream {
    type V = Seq<TT>;

    open spec fn view(&self) -> Seq<TT> {
        trees_view(self.0@)
    }
}

impl TT {
    pub open spec fn span(self) -> Span {
        match self {
            TT::Ident(_, s) => s,
            TT::Punct(_, _, s) => s,
            TT::Literal(_, s) => s,
            TT::Group(_, _, s) => s,
        }
    }

    /// The same tree with its own span replaced (the trees inside a group keep theirs).
    pub open spec fn with_span(self, span: Span) -> TT {
        match self {
            TT::Ident(n, _) => TT::Ident(n, span),
            TT::Punct(c, sp, _) => TT::Punct(c, sp, span),
            TT::Literal(l, _) => TT::Literal(l, span),
            TT::Group(d, s, _) => TT::Group(d, s, span),
        }
    }

    pub open spec fn is_joint_punct(self) -> bool {
        match self {
            TT::Punct(_, sp, _) => sp == Spacing::Joint,
            _ => false,
        }
    }
}

pub open spec fn open_text(d: Delimiter) -> Seq<char> {
    match d {
        Delimiter::Parenthesis => seq!['('],
        Delimiter::Brace => seq!['{', ' '],
        Delimiter::Bracket => seq!['['],
        Delimiter::Invisible => Seq::empty(),
    }
}

pub open spec fn close_text(d: Delimiter) -> Seq<char> {
    match d {
        Delimiter::Parenthesis => seq![')'],
        Delimiter::Brace => seq!['}'],
        Delimiter::Bracket => seq![']'],
        Delimiter::Invisible => Seq::empty(),
    }
}

/// The text of one token tree: a group is its opening bracket, its
/// contents, a space before a closing brace of a non-empty brace group,
/// and its closing bracket.
pub open spec fn render_tree(t: TT) -> Seq<char>
    decreases t,
{
    match t {
        TT::Ident(n, _) => n,
        TT::Punct(c, _, _) => seq![c],
        TT::Literal(l, _) => literal_text(l),
        TT::Group(d, s, _) => open_text(d) + render_trees(s) + (if d == Delimiter::Brace
            && s.len() > 0 {
            seq![' ']
        } else {
            Seq::empty()
        }) + close_text(d),
    }
}

/// The text of a token sequence: the texts of its trees, separated by one
/// space except after a punctuation character that is joint.
pub open spec fn render_trees(s: Seq<TT>) -> Seq<char>
    decreases s, 0int,
{
    if s.len() == 0 {
        Seq::empty()
    } else {
        render_trees(s.subrange(0, s.len() - 1)) + (if s.len() > 1 && !s[s.len()
            - 2].is_joint_punct() {
            seq![' ']
        } else {
            Seq::empty()
        }) + render_tree(s[s.len() - 1])
    }
}

/// The escaped form of one character inside a literal quoted by `quote`.
pub open spec fn escape_char(c: char, quote: char) -> Seq<char> {
    if c == '\\' {
        seq!['\\', '\\']
    } else if c == quote {
        seq!['\\', c]
    } else if c == '\n' {
        seq!['\\', 'n']
    } else if c == '\r' {
        seq!['\\', 'r']
    } else if c == '\t' {
        seq!['\\', 't']
    } else if c == '\0' {
        seq!['\\', '0']
    } else {
        seq![c]
    }
}

pub open spec fn escape_text(s: Seq<char>, quote: char) -> Seq<char>
    decreases s.len(),
{
    if s.len() == 0 {
        Seq::empty()
    } else {
        escape_text(s.drop_last(), quote) + escape_char(s.last(), quote)
    }
}

/// The library's text of a literal: the source text it was written with,
/// or, for a value that the library holds, the value between quotes with
/// backslash, the quote, newline, carriage return, tab and NUL escaped.
pub open spec fn literal_text(v: LitV) -> Seq<char> {
    match v {
        LitV::Source(t) => t,
        LitV::Str(t) => seq!['"'] + escape_text(t, '"') + seq!['"'],
        LitV::Char(c) => seq!['\''] + escape_char(c, '\'') + seq!['\''],
    }
}

/// Appends one character to a string (`String::push`).
#[verifier::external_body]
pub(crate) fn push_char(s: &mut String, c: char)
    ensures
        final(s)@ == old(s)@.push(c),
{
    s.push(c);
}

fn push_escaped(out: &mut String, c: char, quote: char)
    ensures
        final(out)@ == old(out)@ + escape_char(c, quote),
{
    if c == '\\' {
        push_char(out, '\\');
        push_char(out, '\\');
    } else if c == quote {
        push_char(out, '\\');
        push_char(out, c);
    } else if c == '\n' {
        push_char(out, '\\');
        push_char(out, 'n');
    } else if c == '\r' {
        push_char(out, '\\');
        push_char(out, 'r');
    } else if c == '\t' {
        push_char(out, '\\');
        push_char(out, 't');
    } else if c == '\0' {
        push_char(out, '\\');
        push_char(out, '0');
    } else {
        push_char(out, c);
    }
}

fn escaped_text(s: &str, quote: char) -> (r: String)
    ensures
        r@ == seq![quote] + escape_text(s@, quote) + seq![quote],
{
    let mut out = String::new();
    push_char(&mut out, quote);
    let n = s.unicode_len();
    let mut i: usize = 0;
    while i < n
        invariant
            n == s@.len(),
            i <= n,
            out@ == seq![quote] + escape_text(s@.subrange(0, i as int), quote),
        decreases n - i,
    {
        let c = s.get_char(i);
        proof {
            let t = s@.subrange(0, i + 1);
            assert(t.drop_last() =~= s@.subrange(0, i as int));
            assert(t.last() == c);
        }
        push_escaped(&mut out, c, quote);
        i = i + 1;
    }
    assert(s@.subrange(0, n as int) =~= s@);
    push_char(&mut out, quote);
    out
}


impl Span {
    pub fn call_site() -> (r: Span)
        ensures
            r == call_site_span(),
    {
        Span(0)
    }

    /// A span other than the call-site span.
    pub fn different() -> (r: Span)
        ensures
            r == Span(1),
    {
        Span(1)
    }

    pub fn eq(&self, another: &Span) -> (r: bool)
        ensures
            r == (*self == *another),
    {
        self.0 == another.0
    }
}

impl Ident {
    pub fn new(string: &str, span: Span) -> (r: Ident)
        ensures
            r.stringed@ == string@,
            r.span == span,
    {
        Ident { stringed: String::from_str(string), span }
    }

    pub fn span(&self) -> (r: Span)
        ensures
            r == self.span,
    {
        self.span
    }

    pub fn set_span(&mut self, span: Span)
        ensures
            final(self).span == span,
            final(self).stringed == old(self).stringed,
    {
        self.span = span
    }
}

impl Punct {
    /// A punctuation character at the call-site span.
    pub fn new(op: char, spacing: Spacing) -> (r: Punct)
        ensures
            r.op == op,
            r.spacing == spacing,
            r.span == call_site_span(),
    {
        Punct { op, spacing, span: Span::call_site() }
    }

    pub fn span(&self) -> (r: Span)
        ensures
            r == self.span,
    {
        self.span
    }

    pub fn set_span(&mut self, span: Span)
        ensures
            final(self).span == span,
            final(self).op == old(self).op,
            final(self).spacing == old(self).spacing,
    {
        self.span = span
    }

    pub fn as_char(&self) -> (r: char)
        ensures
            r == self.op,
    {
        self.op
    }

    pub fn spacing(&self) -> (r: Spacing)
        ensures
            r == self.spacing,
    {
        self.spacing
    }
}

impl Literal {
    /// A literal whose source text is `repr`.
    pub fn new(repr: &str, span: Span) -> (r: Literal)
        ensures
            lit_view(r.value) == LitV::Source(repr@),
            r.span == span,
    {
        Literal { value: LiteralValue::Source(String::from_str(repr)), span }
    }

    /// The string literal holding `s`, at the call-site span.
    pub fn string(s: &str) -> (r: Literal)
        ensures
            lit_view(r.value) == LitV::Str(s@),
            r.span == call_site_span(),
    {
        Literal { value: LiteralValue::Str(String::from_str(s)), span: Span::call_site() }
    }

    /// The character literal holding `c`, at the call-site span.
    pub fn character(c: char) -> (r: Literal)
        ensures
            lit_view(r.value) == LitV::Char(c),
            r.span == call_site_span(),
    {
        Literal { value: LiteralValue::Char(c), span: Span::call_site() }
    }

    /// A copy of what the literal holds.
    pub fn duplicate_value(&self) -> (r: LiteralValue)
        ensures
            lit_view(r) == lit_view(self.value),
    {
        match &self.value {
            LiteralValue::Source(t) => LiteralValue::Source(t.clone()),
            LiteralValue::Str(t) => LiteralValue::Str(t.clone()),
            LiteralValue::Char(c) => LiteralValue::Char(*c),
        }
    }

    /// The library's text of the literal (see `literal_text`).
    pub fn text(&self) -> (r: String)
        ensures
            r@ == literal_text(lit_view(self.value)),
    {
        match &self.value {
            LiteralValue::Source(t) => t.clone(),
            LiteralValue::Str(t) => escaped_text(t.as_str(), '"'),
            LiteralValue::Char(c) => {
                let mut out = String::new();
                push_char(&mut out, '\'');
                push_escaped(&mut out, *c, '\'');
                push_char(&mut out, '\'');
                proof {
                    assert(out@ =~= literal_text(lit_view(self.value)));
                }
                out
            },
        }
    }

    pub fn span(&self) -> (r: Span)
        ensures
            r == self.span,
    {
        self.span
    }

    pub fn set_span(&mut self, span: Span)
        ensures
            final(self).span == span,
            final(self).value == old(self).value,
    {
        self.span = span
    }
}

impl Group {
    /// A group at the call-site span.
    pub fn new(delimiter: Delimiter, stream: TokenStream) -> (r: Group)
        ensures
            r.delimiter == delimiter,
            r.stream == stream,
            r.span == call_site_span(),
    {
        Group { delimiter, stream, span: Span::call_site() }
    }

    pub fn span(&self) -> (r: Span)
        ensures
            r == self.span,
    {
        self.span
    }

    pub fn set_span(&mut self, span: Span)
        ensures
            final(self).span == span,
            final(self).delimiter == old(self).delimiter,
            final(self).stream == old(self).stream,
    {
        self.span = span
    }

    pub fn delimiter(&self) -> (r: Delimiter)
        ensures
            r == self.delimiter,
    {
        self.delimiter
    }

    /// A copy of the tokens inside the group.
    pub fn stream(&self) -> (r: TokenStream)
        ensures
            r@ == self.stream@,
    {
        self.stream.duplicate()
    }
}

impl TokenTree {
    pub fn span(&self) -> (r: Span)
        ensures
            r == self@.span(),
    {
        match self {
            TokenTree::Ident(ident) => ident.span(),
            TokenTree::Punct(punct) => punct.span(),
            TokenTree::Literal(literal) => literal.span(),
            TokenTree::Group(group) => group.span(),
        }
    }

    pub fn set_span(&mut self, span: Span)
        ensures
            final(self)@ == old(self)@.with_span(span),
    {
        match self {
            TokenTree::Ident(ident) => ident.set_span(span),
            TokenTree::Punct(punct) => punct.set_span(span),
            TokenTree::Literal(literal) => literal.set_span(span),
            TokenTree::Group(group) => group.set_span(span),
        }
    }

    /// A copy of the tree.
    pub fn duplicate(&self) -> (r: TokenTree)
        ensures
            r@ == self@,
        decreases self, 0int,
    {
        match self {
            TokenTree::Ident(i) => TokenTree::Ident(Ident { stringed: i.stringed.clone(), span: i.span }),
            TokenTree::Punct(p) => TokenTree::Punct(Punct { op: p.op, spacing: p.spacing, span: p.span }),
            TokenTree::Literal(l) => TokenTree::Literal(
                Literal { value: l.duplicate_value(), span: l.span },
            ),
            TokenTree::Group(g) => {
                let stream = g.stream.duplicate();
                TokenTree::Group(Group { delimiter: g.delimiter, stream, span: g.span })
            },
        }
    }

    /// Appends the text of this tree to `out`.
    pub fn render_into(&self, out: &mut String)
        ensures
            final(out)@ == old(out)@ + render_tree(self@),
        decreases self, 0int,
    {
        match self {
            TokenTree::Ident(i) => {
                out.append(i.stringed.as_str());
            },
            TokenTree::Punct(p) => {
                push_char(out, p.op);
            },
            TokenTree::Literal(l) => {
                let text = l.text();
                out.append(text.as_str());
            },
            TokenTree::Group(g) => {
                match g.delimiter {
                    Delimiter::Parenthesis => push_char(out, '('),
                    Delimiter::Brace => {
                        push_char(out, '{');
                        push_char(out, ' ');
                    },
                    Delimiter::Bracket => push_char(out, '['),
                    Delimiter::Invisible => {},
                }
                g.stream.render_into(out);
                if g.delimiter == Delimiter::Brace && g.stream.0.len() > 0 {
                    push_char(out, ' ');
                }
                match g.delimiter {
                    Delimiter::Parenthesis => push_char(out, ')'),
                    Delimiter::Brace => push_char(out, '}'),
                    Delimiter::Bracket => push_char(out, ']'),
                    Delimiter::Invisible => {},
                }
            },
        }
    }
}

impl TokenStream {
    pub fn new() -> (r: TokenStream)
        ensures
            r@ == Seq::<TT>::empty(),
    {
        let r = TokenStream(Vec::new());
        assert(r@ =~= Seq::<TT>::empty());
        r
    }

    pub fn len(&self) -> (r: usize)
        ensures
            r == self@.len(),
    {
        self.0.len()
    }

    /// Appends one tree at the end.
    pub fn push(&mut self, token: TokenTree)
        ensures
            final(self)@ == old(self)@.push(token@),
    {
        self.0.push(token);
        assert(self@ =~= old(self)@.push(token@));
    }

    /// Appends all trees of `other`, in order.
    pub fn extend(&mut self, other: TokenStream)
        ensures
            final(self)@ == old(self)@ + other@,
    {
        let ghost added = other@;
        let mut other = other;
        self.0.append(&mut other.0);
        assert(self@ =~= old(self)@ + added);
    }

    /// A copy of the stream.
    pub fn duplicate(&self) -> (r: TokenStream)
        ensures
            r@ == self@,
        decreases self, 1int,
    {
        let mut v: Vec<TokenTree> = Vec::new();
        let mut i: usize = 0;
        while i < self.0.len()
            invariant
                i <= self.0@.len(),
                v@.len() == i,
                forall|j: int| 0 <= j < i ==> tree_view(#[trigger] v@[j]) == tree_view(self.0@[j]),
            decreases self.0@.len() - i,
        {
            proof {
                assert(decreases_to!(self => self.0));
                vstd::std_specs::vec::axiom_vec_index_decreases(self.0, i as int);
            }
            let t = self.0[i].duplicate();
            v.push(t);
            i = i + 1;
        }
        let r = TokenStream(v);
        assert(r@ =~= self@);
        r
    }

    /// Appends the text of this stream to `out`.
    pub fn render_into(&self, out: &mut String)
        ensures
            final(out)@ == old(out)@ + render_trees(self@),
        decreases self, 1int,
    {
        let ghost start = out@;
        let mut joint = false;
        let mut i: usize = 0;
        while i < self.0.len()
            invariant
                i <= self.0@.len(),
                out@ == start + render_trees(self@.subrange(0, i as int)),
                joint == (i > 0 && self@[i - 1].is_joint_punct()),
            decreases self.0@.len() - i,
        {
            proof {
                assert(decreases_to!(self => self.0));
                vstd::std_specs::vec::axiom_vec_index_decreases(self.0, i as int);
            }
            if i != 0 && !joint {
                push_char(out, ' ');
            }
            let t = &self.0[i];
            joint = match t {
                TokenTree::Punct(p) => p.spacing == Spacing::Joint,
                _ => false,
            };
            t.render_into(out);
            proof {
                let s = self@.subrange(0, i + 1);
                assert(s.subrange(0, s.len() - 1) =~= self@.subrange(0, i as int));
                assert(s[s.len() - 1] == self@[i as int]);
                assert(i > 0 ==> s[s.len() - 2] == self@[i - 1]);
            }
            i = i + 1;
        }
        assert(self@.subrange(0, i as int) =~= self@);
    }

    /// The text of the stream: trees separated by single spaces, except
    /// after joint punctuation; `{ ... }` around non-empty brace groups.
    pub fn to_string(&self) -> (r: String)
        ensures
            r@ == render_trees(self@),
    {
        let mut out = String::new();
        self.render_into(&mut out);
        assert(out@ =~= render_trees(self@));
        out
    }
}

impl core::str::FromStr for TokenStream {
    type Err = ();

    /// The stream holding one literal whose source text is `s`, at the
    /// call-site span.
    fn from_str(s: &str) -> (r: Result<TokenStream, ()>)
        ensures
            r matches Ok(stream) && stream@ == seq![TT::Literal(LitV::Source(s@), call_site_span())],
    {
        let mut stream = TokenStream::new();
        stream.push(TokenTree::Literal(Literal::new(s, Span::call_site())));
        assert(stream@ =~= seq![TT::Literal(LitV::Source(s@), call_site_span())]);
        Ok(stream)
    }
}

/// Values that know the tokens they are written as.
pub trait ToTokens {
    /// The trees that `to_tokens` appends for this value.
    spec fn token_trees(&self) -> Seq<TT>;

    /// Appends the value's tokens to `token_stream`.
    fn to_tokens(&self, token_stream: &mut TokenStream)
        ensures
            final(token_stream)@ == old(token_stream)@ + self.token_trees(),
    ;
}

impl ToTokens for Ident {
    /// The identifier itself.
    open spec fn token_trees(&self) -> Seq<TT> {
        seq![TT::Ident(self.stringed@, self.span)]
    }

    /// Appends the identifier itself.
    fn to_tokens(&self, token_stream: &mut TokenStream) {
        token_stream.push(TokenTree::Ident(Ident { stringed: self.stringed.clone(), span: self.span }));
        assert(token_stream@ =~= old(token_stream)@ + self.token_trees());
    }
}

impl<T: ToTokens + ?Sized> ToTokens for &T {
    /// What the referenced value is written as.
    open spec fn token_trees(&self) -> Seq<TT> {
        (**self).token_trees()
    }

    /// Appends what the referenced value appends.
    fn to_tokens(&self, token_stream: &mut TokenStream) {
        (**self).to_tokens(token_stream)
    }
}

} // verus!
