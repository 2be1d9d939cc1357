//! What the generated code does, stated token by token: where each piece
//! of it appends, which span the tokens it builds get, and how `^{..}` and
//! `#{match}` behave. The statements spell the code out with the token
//! helpers only, so they pin down which stream variable, which span
//! expression and which runtime call each template item uses.
use vstd::prelude::*;

use crate::compile::{
    compiled, delimiter_name, item_code, pm2_path, plain_code, runtime_path, seq_code, sgroup,
    sid, smethod, spacing_name, spunct, sseg, ScopeV,
};
use crate::error::ErrV;
use crate::expand::{expand_item, expand_seq, lookup, EnvV, ValueV};
use crate::language::{ArmV, QT};
use crate::laws::lemma_expand_single;
use crate::parse_spec::{
    events, initial_context, lemma_events_empty, lemma_events_tag, lemma_run_end, lemma_run_step,
    put, spec_parse, step, Ev, CI,
};
use crate::tokens::{call_site_span, literal_text, render_trees, Delimiter, LitV, Spacing, Span, TT};

verus! {

/// The scope `s` with the stream variable `name` (at the call site).
pub open spec fn with_var(s: ScopeV, name: Seq<char>) -> ScopeV {
    ScopeV { var: TT::Ident(name, call_site_span()), req: s.req, rt: s.rt }
}

/// `VAR.extend(::std::iter::once(RT::proc_macro2::TokenTree::KIND(x)))`,
/// written out.
pub open spec fn appends_tree(var: TT, rt: Seq<TT>, kind: Seq<char>, x: Seq<char>, sp: Span) -> Seq<TT> {
    seq![var, TT::Punct('.', Spacing::Alone, sp), TT::Ident("extend"@, sp)] + sgroup(
        Delimiter::Parenthesis,
        sseg("std"@, sp) + sseg("iter"@, sp) + sseg("once"@, sp) + sgroup(
            Delimiter::Parenthesis,
            rt + sseg("proc_macro2"@, sp) + sseg("TokenTree"@, sp) + sseg(kind, sp) + sgroup(
                Delimiter::Parenthesis,
                seq![TT::Ident(x, call_site_span())],
                sp,
            ),
            sp,
        ),
        sp,
    )
}

/// `let mut inner_stream = RT::proc_macro2::TokenStream::new(); CONTENTS inner_stream`
pub open spec fn group_block_built(sp: Span, contents: Seq<TT>, s: ScopeV) -> Seq<TT> {
    let inner_stream = TT::Ident("inner_stream"@, call_site_span());
    seq![
        TT::Ident("let"@, sp),
        TT::Ident("mut"@, sp),
        inner_stream,
        TT::Punct('=', Spacing::Alone, sp),
    ] + pm2_path(s.rt, "TokenStream"@, "new"@, sp) + seq![
        TT::Group(Delimiter::Parenthesis, Seq::empty(), sp),
        TT::Punct(';', Spacing::Alone, sp),
    ] + contents + seq![inner_stream]
}

/// `RT::proc_macro2::Delimiter::D, { BLOCK }`
pub open spec fn group_args_built(d: Delimiter, sp: Span, contents: Seq<TT>, s: ScopeV) -> Seq<TT> {
    pm2_path(s.rt, "Delimiter"@, delimiter_name(d), sp) + seq![
        TT::Punct(',', Spacing::Alone, sp),
        TT::Group(Delimiter::Brace, group_block_built(sp, contents, s), sp),
    ]
}

/// `let mut constructing_group = RT::proc_macro2::Group::new(ARGS);
///  constructing_group.set_span(REQ); VAR.extend(..)`
pub open spec fn group_body_built(d: Delimiter, sp: Span, contents: Seq<TT>, s: ScopeV) -> Seq<TT> {
    let g = TT::Ident("constructing_group"@, call_site_span());
    seq![
        TT::Ident("let"@, sp),
        TT::Ident("mut"@, sp),
        g,
        TT::Punct('=', Spacing::Alone, sp),
    ] + pm2_path(s.rt, "Group"@, "new"@, sp) + seq![
        TT::Group(Delimiter::Parenthesis, group_args_built(d, sp, contents, s), sp),
        TT::Punct(';', Spacing::Alone, sp),
        g,
        TT::Punct('.', Spacing::Alone, sp),
        TT::Ident("set_span"@, sp),
        TT::Group(Delimiter::Parenthesis, s.req, sp),
        TT::Punct(';', Spacing::Alone, sp),
    ] + appends_tree(s.var, s.rt, "Group"@, "constructing_group"@, sp)
}

/// The code for a template group: a new group is made whose stream is
/// built by `contents` in the fresh variable `inner_stream`; it gets the
/// requested span and is appended to the scope's variable.
pub open spec fn group_built(d: Delimiter, sp: Span, contents: Seq<TT>, s: ScopeV) -> Seq<TT> {
    seq![TT::Group(Delimiter::Brace, group_body_built(d, sp, contents, s), sp)]
}

/// The compiled form of a group, whatever code builds its contents, is
/// the built form.
proof fn lemma_group_code(d: Delimiter, sp: Span, contents: Seq<TT>, s: ScopeV)
    ensures
        crate::compile::group_code(d, sp, contents, s) == group_built(d, sp, contents, s),
{
    assert(crate::compile::group_block(sp, contents, s) =~= group_block_built(sp, contents, s));
    assert(crate::compile::group_args(d, sp, contents, s) =~= group_args_built(d, sp, contents, s));
    assert(crate::compile::extend_once(s.var, s.rt, "Group"@, "constructing_group"@, sp)
        =~= appends_tree(s.var, s.rt, "Group"@, "constructing_group"@, sp));
    assert(crate::compile::group_body(d, sp, contents, s) =~= group_body_built(d, sp, contents, s));
}

/// The code for `#{e}`: the value of `e`, borrowed, writes its tokens into
/// the scope's variable `var` through `quote::ToTokens`.
pub open spec fn value_appended(e: Seq<TT>, sp: Span, rt: Seq<TT>, var: TT) -> Seq<TT> {
    let cs = call_site_span();
    seq![
        TT::Group(
            Delimiter::Brace,
            seq![
                TT::Ident("let"@, sp),
                TT::Ident("ref"@, sp),
                TT::Ident("insertion"@, cs),
                TT::Punct('=', Spacing::Alone, sp),
            ] + e + seq![TT::Punct(';', Spacing::Alone, sp)] + rt + sseg("quote"@, sp) + sseg(
                "ToTokens"@,
                sp,
            ) + sseg("to_tokens"@, sp) + seq![
                TT::Group(
                    Delimiter::Parenthesis,
                    seq![
                        TT::Ident("insertion"@, cs),
                        TT::Punct(',', Spacing::Alone, sp),
                        TT::Punct('&', Spacing::Alone, sp),
                        TT::Ident("mut"@, sp),
                        var,
                    ],
                    sp,
                ),
                TT::Punct(';', Spacing::Alone, sp),
            ],
            sp,
        ),
    ]
}

/// The code of a template group builds the group's contents in the
/// group's own stream `inner_stream` (the contents are compiled with that
/// variable), and then appends the finished group, at the requested span,
/// to the stream of the enclosing scope.
pub proof fn law_group_contents_go_into_the_group(d: Delimiter, inner: Seq<QT>, sp: Span, s: ScopeV)
    ensures
        item_code(QT::Group(d, inner, sp), s) == group_built(
            d,
            sp,
            seq_code(inner, with_var(s, "inner_stream"@)),
            s,
        ),
{
    lemma_group_code(d, sp, seq_code(inner, with_var(s, "inner_stream"@)), s);
    assert(crate::compile::inner_scope(s) == with_var(s, "inner_stream"@));
}

/// The same for a group of plain tokens: its tokens are built into
/// `inner_stream`.
pub proof fn law_plain_group_contents_go_into_the_group(
    d: Delimiter,
    inner: Seq<TT>,
    sp: Span,
    s: ScopeV,
)
    ensures
        plain_code(TT::Group(d, inner, sp), s) == group_built(
            d,
            sp,
            crate::compile::plain_seq_code(inner, with_var(s, "inner_stream"@)),
            s,
        ),
{
    lemma_group_code(d, sp, crate::compile::plain_seq_code(inner, with_var(s, "inner_stream"@)), s);
    assert(crate::compile::inner_scope(s) == with_var(s, "inner_stream"@));
}

/// The code of `#{e}` writes the value's tokens into the stream variable
/// of its own scope, whatever that variable is.
pub proof fn law_insertion_appends_to_its_scope(e: Seq<TT>, sp: Span, s: ScopeV)
    ensures
        item_code(QT::Insertion(sp, e), s) == value_appended(e, sp, s.rt, s.var),
{
    let cs = call_site_span();
    let args = seq![
        TT::Ident("insertion"@, cs),
        TT::Punct(',', Spacing::Alone, sp),
        TT::Punct('&', Spacing::Alone, sp),
        TT::Ident("mut"@, sp),
        s.var,
    ];
    assert(crate::compile::insertion_args(sp, s) =~= args);
    let body = seq![
        TT::Ident("let"@, sp),
        TT::Ident("ref"@, sp),
        TT::Ident("insertion"@, cs),
        TT::Punct('=', Spacing::Alone, sp),
    ] + e + seq![TT::Punct(';', Spacing::Alone, sp)] + s.rt + sseg("quote"@, sp) + sseg(
        "ToTokens"@,
        sp,
    ) + sseg("to_tokens"@, sp) + seq![
        TT::Group(Delimiter::Parenthesis, args, sp),
        TT::Punct(';', Spacing::Alone, sp),
    ];
    assert(crate::compile::insertion_body(e, sp, s) =~= body);
}

/// An insertion inside a template group writes into the group's stream
/// `inner_stream`, inside the group that the code builds.
pub proof fn law_insertion_in_a_group_appends_to_the_group(
    d: Delimiter,
    e: Seq<TT>,
    isp: Span,
    sp: Span,
    s: ScopeV,
)
    ensures
        item_code(QT::Group(d, seq![QT::Insertion(isp, e)], sp), s) == group_built(
            d,
            sp,
            value_appended(e, isp, s.rt, TT::Ident("inner_stream"@, call_site_span())),
            s,
        ),
{
    let si = with_var(s, "inner_stream"@);
    let q = seq![QT::Insertion(isp, e)];
    law_group_contents_go_into_the_group(d, q, sp, s);
    law_insertion_appends_to_its_scope(e, isp, si);
    assert(q.subrange(0, 0) =~= Seq::<QT>::empty());
    assert(seq_code(Seq::<QT>::empty(), si) == Seq::<TT>::empty());
    assert(q[0] == QT::Insertion(isp, e));
    assert(seq_code(q, si) =~= Seq::<TT>::empty() + item_code(QT::Insertion(isp, e), si));
    assert(seq_code(q, si) =~= value_appended(e, isp, s.rt, TT::Ident("inner_stream"@, call_site_span())));
}

/// The code for a plain identifier makes it with `Ident::new(NAME, REQ)`:
/// its name, and exactly the requested span expression of the scope; then
/// it is appended to the scope's variable.
pub proof fn law_identifier_gets_the_requested_span(name: Seq<char>, sp: Span, s: ScopeV)
    ensures
        plain_code(TT::Ident(name, sp), s) == seq![
            TT::Group(
                Delimiter::Brace,
                seq![
                    TT::Ident("let"@, sp),
                    TT::Ident("i"@, call_site_span()),
                    TT::Punct('=', Spacing::Alone, sp),
                ] + pm2_path(s.rt, "Ident"@, "new"@, sp) + seq![
                    TT::Group(
                        Delimiter::Parenthesis,
                        seq![
                            TT::Literal(LitV::Str(name), call_site_span()),
                            TT::Punct(',', Spacing::Alone, sp),
                        ] + s.req,
                        sp,
                    ),
                    TT::Punct(';', Spacing::Alone, sp),
                ] + appends_tree(s.var, s.rt, "Ident"@, "i"@, sp) + seq![
                    TT::Punct(';', Spacing::Alone, sp),
                ],
                sp,
            ),
        ],
{
    let expected = seq![
        TT::Group(
            Delimiter::Brace,
            seq![
                TT::Ident("let"@, sp),
                TT::Ident("i"@, call_site_span()),
                TT::Punct('=', Spacing::Alone, sp),
            ] + pm2_path(s.rt, "Ident"@, "new"@, sp) + seq![
                TT::Group(
                    Delimiter::Parenthesis,
                    seq![
                        TT::Literal(LitV::Str(name), call_site_span()),
                        TT::Punct(',', Spacing::Alone, sp),
                    ] + s.req,
                    sp,
                ),
                TT::Punct(';', Spacing::Alone, sp),
            ] + appends_tree(s.var, s.rt, "Ident"@, "i"@, sp) + seq![
                TT::Punct(';', Spacing::Alone, sp),
            ],
            sp,
        ),
    ];
    let args = seq![
        TT::Literal(LitV::Str(name), call_site_span()),
        TT::Punct(',', Spacing::Alone, sp),
    ] + s.req;
    assert(crate::compile::ident_args(name, sp, s) =~= args);
    assert(crate::compile::extend_once(s.var, s.rt, "Ident"@, "i"@, sp) =~= appends_tree(
        s.var,
        s.rt,
        "Ident"@,
        "i"@,
        sp,
    ));
    let body = seq![
        TT::Ident("let"@, sp),
        TT::Ident("i"@, call_site_span()),
        TT::Punct('=', Spacing::Alone, sp),
    ] + pm2_path(s.rt, "Ident"@, "new"@, sp) + seq![
        TT::Group(Delimiter::Parenthesis, args, sp),
        TT::Punct(';', Spacing::Alone, sp),
    ] + appends_tree(s.var, s.rt, "Ident"@, "i"@, sp) + seq![
        TT::Punct(';', Spacing::Alone, sp),
    ];
    assert(crate::compile::ident_body(name, sp, s) =~= body);
    assert(plain_code(TT::Ident(name, sp), s) =~= expected);
}

/// The code for a plain punctuation character makes it with its character
/// and spacing, sets exactly the requested span expression on it, and
/// appends it to the scope's variable.
pub proof fn law_punct_gets_the_requested_span(op: char, spacing: Spacing, sp: Span, s: ScopeV)
    ensures
        plain_code(TT::Punct(op, spacing, sp), s) == seq![
            TT::Group(
                Delimiter::Brace,
                seq![
                    TT::Ident("let"@, sp),
                    TT::Ident("mut"@, sp),
                    TT::Ident("p"@, call_site_span()),
                    TT::Punct('=', Spacing::Alone, sp),
                ] + pm2_path(s.rt, "Punct"@, "new"@, sp) + seq![
                    TT::Group(
                        Delimiter::Parenthesis,
                        seq![
                            TT::Literal(LitV::Char(op), call_site_span()),
                            TT::Punct(',', Spacing::Alone, sp),
                        ] + pm2_path(s.rt, "Spacing"@, spacing_name(spacing), sp),
                        sp,
                    ),
                    TT::Punct(';', Spacing::Alone, sp),
                    TT::Ident("p"@, call_site_span()),
                    TT::Punct('.', Spacing::Alone, sp),
                    TT::Ident("set_span"@, sp),
                    TT::Group(Delimiter::Parenthesis, s.req, sp),
                    TT::Punct(';', Spacing::Alone, sp),
                ] + appends_tree(s.var, s.rt, "Punct"@, "p"@, sp) + seq![
                    TT::Punct(';', Spacing::Alone, sp),
                ],
                sp,
            ),
        ],
{
    let expected = seq![
        TT::Group(
            Delimiter::Brace,
            seq![
                TT::Ident("let"@, sp),
                TT::Ident("mut"@, sp),
                TT::Ident("p"@, call_site_span()),
                TT::Punct('=', Spacing::Alone, sp),
            ] + pm2_path(s.rt, "Punct"@, "new"@, sp) + seq![
                TT::Group(
                    Delimiter::Parenthesis,
                    seq![
                        TT::Literal(LitV::Char(op), call_site_span()),
                        TT::Punct(',', Spacing::Alone, sp),
                    ] + pm2_path(s.rt, "Spacing"@, spacing_name(spacing), sp),
                    sp,
                ),
                TT::Punct(';', Spacing::Alone, sp),
                TT::Ident("p"@, call_site_span()),
                TT::Punct('.', Spacing::Alone, sp),
                TT::Ident("set_span"@, sp),
                TT::Group(Delimiter::Parenthesis, s.req, sp),
                TT::Punct(';', Spacing::Alone, sp),
            ] + appends_tree(s.var, s.rt, "Punct"@, "p"@, sp) + seq![
                TT::Punct(';', Spacing::Alone, sp),
            ],
            sp,
        ),
    ];
    let args = seq![
        TT::Literal(LitV::Char(op), call_site_span()),
        TT::Punct(',', Spacing::Alone, sp),
    ] + pm2_path(s.rt, "Spacing"@, spacing_name(spacing), sp);
    assert(crate::compile::punct_args(op, spacing, sp, s) =~= args);
    assert(crate::compile::extend_once(s.var, s.rt, "Punct"@, "p"@, sp) =~= appends_tree(
        s.var,
        s.rt,
        "Punct"@,
        "p"@,
        sp,
    ));
    let body = seq![
        TT::Ident("let"@, sp),
        TT::Ident("mut"@, sp),
        TT::Ident("p"@, call_site_span()),
        TT::Punct('=', Spacing::Alone, sp),
    ] + pm2_path(s.rt, "Punct"@, "new"@, sp) + seq![
        TT::Group(Delimiter::Parenthesis, args, sp),
        TT::Punct(';', Spacing::Alone, sp),
        TT::Ident("p"@, call_site_span()),
        TT::Punct('.', Spacing::Alone, sp),
        TT::Ident("set_span"@, sp),
        TT::Group(Delimiter::Parenthesis, s.req, sp),
        TT::Punct(';', Spacing::Alone, sp),
    ] + appends_tree(s.var, s.rt, "Punct"@, "p"@, sp) + seq![
        TT::Punct(';', Spacing::Alone, sp),
    ];
    assert(crate::compile::punct_body(op, spacing, sp, s) =~= body);
    assert(plain_code(TT::Punct(op, spacing, sp), s) =~= expected);
}

/// `|mut t| { t.set_span(REQ); t }`, written out.
pub open spec fn span_setter(sp: Span, req: Seq<TT>) -> Seq<TT> {
    let t = TT::Ident("t"@, sp);
    seq![
        TT::Punct('|', Spacing::Alone, sp),
        TT::Ident("mut"@, sp),
        t,
        TT::Punct('|', Spacing::Alone, sp),
        TT::Group(
            Delimiter::Brace,
            seq![
                t,
                TT::Punct('.', Spacing::Alone, sp),
                TT::Ident("set_span"@, sp),
                TT::Group(Delimiter::Parenthesis, req, sp),
                TT::Punct(';', Spacing::Alone, sp),
                t,
            ],
            sp,
        ),
    ]
}

/// The code for a plain literal parses the literal's text (a string
/// literal holding it) into a stream, gives each of its trees exactly the
/// requested span expression, and appends them to the scope's variable.
pub proof fn law_literal_gets_the_requested_span(v: LitV, sp: Span, s: ScopeV)
    ensures
        plain_code(TT::Literal(v, sp), s) == seq![
            TT::Group(
                Delimiter::Brace,
                seq![
                    TT::Ident("let"@, sp),
                    TT::Ident("s"@, call_site_span()),
                    TT::Punct(':', Spacing::Alone, sp),
                ] + s.rt + sseg("proc_macro2"@, sp) + sseg("TokenStream"@, sp) + seq![
                    TT::Punct('=', Spacing::Alone, sp),
                    TT::Literal(LitV::Str(literal_text(v)), call_site_span()),
                    TT::Punct('.', Spacing::Alone, sp),
                    TT::Ident("parse"@, sp),
                    TT::Group(Delimiter::Parenthesis, Seq::empty(), sp),
                    TT::Punct('.', Spacing::Alone, sp),
                    TT::Ident("expect"@, sp),
                    TT::Group(
                        Delimiter::Parenthesis,
                        seq![TT::Literal(LitV::Source("\"invalid token stream\""@), sp)],
                        sp,
                    ),
                    TT::Punct(';', Spacing::Alone, sp),
                    s.var,
                    TT::Punct('.', Spacing::Alone, sp),
                    TT::Ident("extend"@, sp),
                    TT::Group(
                        Delimiter::Parenthesis,
                        seq![
                            TT::Ident("s"@, call_site_span()),
                            TT::Punct('.', Spacing::Alone, sp),
                            TT::Ident("into_iter"@, sp),
                            TT::Group(Delimiter::Parenthesis, Seq::empty(), sp),
                            TT::Punct('.', Spacing::Alone, sp),
                            TT::Ident("map"@, sp),
                            TT::Group(Delimiter::Parenthesis, span_setter(sp, s.req), sp),
                        ],
                        sp,
                    ),
                ],
                sp,
            ),
        ],
{
    let cs = call_site_span();
    let ext = seq![
        TT::Ident("s"@, cs),
        TT::Punct('.', Spacing::Alone, sp),
        TT::Ident("into_iter"@, sp),
        TT::Group(Delimiter::Parenthesis, Seq::empty(), sp),
        TT::Punct('.', Spacing::Alone, sp),
        TT::Ident("map"@, sp),
        TT::Group(Delimiter::Parenthesis, span_setter(sp, s.req), sp),
    ];
    let t = TT::Ident("t"@, sp);
    assert(crate::compile::literal_set(sp, s) =~= seq![
        t,
        TT::Punct('.', Spacing::Alone, sp),
        TT::Ident("set_span"@, sp),
        TT::Group(Delimiter::Parenthesis, s.req, sp),
        TT::Punct(';', Spacing::Alone, sp),
        t,
    ]);
    assert(crate::compile::literal_closure(sp, s) =~= span_setter(sp, s.req));
    assert(crate::compile::literal_ext(sp, s) =~= ext);
    let body = seq![
        TT::Ident("let"@, sp),
        TT::Ident("s"@, cs),
        TT::Punct(':', Spacing::Alone, sp),
    ] + s.rt + sseg("proc_macro2"@, sp) + sseg("TokenStream"@, sp) + seq![
        TT::Punct('=', Spacing::Alone, sp),
        TT::Literal(LitV::Str(literal_text(v)), cs),
        TT::Punct('.', Spacing::Alone, sp),
        TT::Ident("parse"@, sp),
        TT::Group(Delimiter::Parenthesis, Seq::empty(), sp),
        TT::Punct('.', Spacing::Alone, sp),
        TT::Ident("expect"@, sp),
        TT::Group(
            Delimiter::Parenthesis,
            seq![TT::Literal(LitV::Source("\"invalid token stream\""@), sp)],
            sp,
        ),
        TT::Punct(';', Spacing::Alone, sp),
        s.var,
        TT::Punct('.', Spacing::Alone, sp),
        TT::Ident("extend"@, sp),
        TT::Group(Delimiter::Parenthesis, ext, sp),
    ];
    assert(crate::compile::literal_body(literal_text(v), sp, s) =~= body);
    assert(plain_code(TT::Literal(v, sp), s) =~= seq![TT::Group(Delimiter::Brace, body, sp)]);
}

/// The whole generated code declares `token_stream`, runs the code of the
/// template with that variable and with the requested span expression
/// exactly as given (the call site when none is given), and evaluates to
/// the stream.
pub proof fn law_requested_span_reaches_the_code(q: Seq<QT>, requested: Option<Seq<TT>>)
    ensures
        compiled(q, requested) == ({
            let cs = call_site_span();
            let req = match requested {
                Some(r) => r,
                None => pm2_path(runtime_path(), "Span"@, "call_site"@, cs) + seq![
                    TT::Group(Delimiter::Parenthesis, Seq::empty(), cs),
                ],
            };
            let s = ScopeV { var: TT::Ident("token_stream"@, cs), req, rt: runtime_path() };
            seq![
                TT::Group(
                    Delimiter::Brace,
                    seq![
                        TT::Ident("let"@, cs),
                        TT::Ident("mut"@, cs),
                        TT::Ident("token_stream"@, cs),
                        TT::Punct('=', Spacing::Alone, cs),
                    ] + pm2_path(runtime_path(), "TokenStream"@, "new"@, cs) + seq![
                        TT::Group(Delimiter::Parenthesis, Seq::empty(), cs),
                        TT::Punct(';', Spacing::Alone, cs),
                    ] + seq_code(q, s) + seq![TT::Ident("token_stream"@, cs)],
                    cs,
                ),
            ]
        }),
{
    let cs = call_site_span();
    let req = match requested {
        Some(r) => r,
        None => pm2_path(runtime_path(), "Span"@, "call_site"@, cs) + seq![
            TT::Group(Delimiter::Parenthesis, Seq::empty(), cs),
        ],
    };
    let s = ScopeV { var: TT::Ident("token_stream"@, cs), req, rt: runtime_path() };
    let expected = seq![
        TT::Group(
            Delimiter::Brace,
            seq![
                TT::Ident("let"@, cs),
                TT::Ident("mut"@, cs),
                TT::Ident("token_stream"@, cs),
                TT::Punct('=', Spacing::Alone, cs),
            ] + pm2_path(runtime_path(), "TokenStream"@, "new"@, cs) + seq![
                TT::Group(Delimiter::Parenthesis, Seq::empty(), cs),
                TT::Punct(';', Spacing::Alone, cs),
            ] + seq_code(q, s) + seq![TT::Ident("token_stream"@, cs)],
            cs,
        ),
    ];
    let body = seq![
        TT::Ident("let"@, cs),
        TT::Ident("mut"@, cs),
        TT::Ident("token_stream"@, cs),
        TT::Punct('=', Spacing::Alone, cs),
    ] + pm2_path(runtime_path(), "TokenStream"@, "new"@, cs) + seq![
        TT::Group(Delimiter::Parenthesis, Seq::empty(), cs),
        TT::Punct(';', Spacing::Alone, cs),
    ] + seq_code(q, s) + seq![TT::Ident("token_stream"@, cs)];
    assert(crate::compile::default_requested_span() =~= pm2_path(
        runtime_path(),
        "Span"@,
        "call_site"@,
        cs,
    ) + seq![TT::Group(Delimiter::Parenthesis, Seq::empty(), cs)]);
    let inner = sid("let"@, cs) + sid("mut"@, cs) + sid("token_stream"@, cs) + spunct('=', cs)
        + pm2_path(runtime_path(), "TokenStream"@, "new"@, cs) + sgroup(
        Delimiter::Parenthesis,
        Seq::empty(),
        cs,
    ) + spunct(';', cs) + seq_code(q, s) + sid("token_stream"@, cs);
    assert(inner =~= body);
    assert(compiled(q, requested) =~= expected);
}

/// The code of `^{e}` hands the iterable itself to the stream's `extend`:
/// `VAR.extend(e);`, with no `ToTokens` and no borrow.
pub proof fn law_extension_extends_the_stream(e: Seq<TT>, sp: Span, s: ScopeV)
    ensures
        item_code(QT::Extend(sp, e), s) == seq![
            TT::Group(
                Delimiter::Brace,
                seq![
                    s.var,
                    TT::Punct('.', Spacing::Alone, sp),
                    TT::Ident("extend"@, sp),
                    TT::Group(Delimiter::Parenthesis, e, sp),
                    TT::Punct(';', Spacing::Alone, sp),
                ],
                sp,
            ),
        ],
{
    let expected = seq![
        TT::Group(
            Delimiter::Brace,
            seq![
                s.var,
                TT::Punct('.', Spacing::Alone, sp),
                TT::Ident("extend"@, sp),
                TT::Group(Delimiter::Parenthesis, e, sp),
                TT::Punct(';', Spacing::Alone, sp),
            ],
            sp,
        ),
    ];
    assert(crate::compile::extend_body(e, sp, s) =~= seq![
        s.var,
        TT::Punct('.', Spacing::Alone, sp),
        TT::Ident("extend"@, sp),
        TT::Group(Delimiter::Parenthesis, e, sp),
        TT::Punct(';', Spacing::Alone, sp),
    ]);
    assert(item_code(QT::Extend(sp, e), s) =~= expected);
}

/// `^{WORDS}` with everything at `span`.
pub open spec fn caret_tag(words: Seq<TT>, span: Span) -> Seq<TT> {
    seq![TT::Punct('^', Spacing::Alone, span), TT::Group(Delimiter::Brace, words, span)]
}

/// `^{e}`, where `e` does not start with a group, is an extension by the
/// whole of `e` (at the span of its first token), never an insertion, and
/// it produces the token trees that the value of `e` yields.
pub proof fn law_caret_tag_is_an_extension(
    words: Seq<TT>,
    sp: Span,
    env: EnvV,
    value: Seq<TT>,
    span: Span,
)
    requires
        words.len() > 0,
        !(words[0] is Group),
        lookup(seq![env], render_trees(words)) == Some(ValueV::Tokens(value)),
    ensures
        spec_parse(caret_tag(words, sp)) == Ok::<Seq<QT>, ErrV>(
            seq![QT::Extend(words[0].span(), words)],
        ),
        expand_seq(seq![QT::Extend(words[0].span(), words)], seq![env], span) == Ok::<
            Seq<TT>,
            Seq<char>,
        >(value),
{
    let p = TT::Punct('^', Spacing::Alone, sp);
    let t = caret_tag(words, sp);
    lemma_events_tag(t);
    assert(t.subrange(2, 2) =~= Seq::<TT>::empty());
    lemma_events_empty();
    let e = Ev::Tag(p, words, sp);
    assert(events(t) =~= seq![e]);
    let k0 = initial_context();
    let q = QT::Extend(words[0].span(), words);
    let k1 = seq![CI::Zero(seq![q])];
    lemma_run_step(k0, e, Seq::empty());
    assert(seq![e] =~= seq![e] + Seq::<Ev>::empty());
    assert(put(k0, q) =~= k1);
    assert(step(k0, e) == Ok::<Seq<CI>, ErrV>(k1));
    lemma_run_end(k1);
    lemma_expand_single(q, seq![env], span);
}

/// A match with any number of arms produces the body of the arm that the
/// value of its expression takes, in the scope extended by that arm's
/// bindings; a value naming no arm is reported as the expression's error.
pub proof fn law_match_takes_the_named_arm(
    sp: Span,
    of: Seq<TT>,
    arms: Seq<ArmV>,
    scope: Seq<EnvV>,
    i: nat,
    binds: EnvV,
    span: Span,
)
    requires
        lookup(scope, render_trees(of)) == Some(ValueV::Arm(i, binds)),
    ensures
        i < arms.len() ==> expand_item(QT::Match(sp, of, arms), scope, span) == expand_seq(
            arms[i as int].2,
            scope.push(binds),
            span,
        ),
        i >= arms.len() ==> expand_item(QT::Match(sp, of, arms), scope, span) == Err::<
            Seq<TT>,
            Seq<char>,
        >(render_trees(of)),
{
}

} // verus!
