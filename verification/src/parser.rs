//! Recursive-descent parsing: a token sequence to a specification document.
//!
//! The parser walks the tokens with one forward cursor and no backtracking.
//! Its ghost counterpart `spec_parse` describes the exact document produced
//! for every token sequence, or that the first structural mismatch is
//! reported as a grammar error. Unknown tokens inside the body are
//! skipped, a deliberate forward-compatibility leniency.

use vstd::prelude::*;
use crate::ast::{ComputedField, Expression, FieldDef, PrimitiveType, Spec, TypeExpr, Version};
use crate::lexer::{lemma_spec_tokens_eof, spec_tokens, tokenize, tokens_model, TokModel, Token};
use crate::num::{Num, SCALE};
use crate::{ParseError, ParseResult};

verus! {

/// The ghost form of a parsed document.
pub struct SpecModel {
    pub name: Seq<char>,
    pub major: int,
    pub minor: int,
    pub patch: Option<int>,
    pub description: Option<Seq<char>>,
    pub inputs: Seq<FieldModel>,
    pub computed: Seq<CompModel>,
}

/// The ghost form of an input field: this parser attaches no modifiers.
pub struct FieldModel {
    pub name: Seq<char>,
    pub ty: TypeModel,
}

/// The ghost form of a parsed type expression.
pub enum TypeModel {
    Prim(PrimitiveType),
    Ref(Seq<char>),
}

/// The ghost form of a computed field.
pub struct CompModel {
    pub name: Seq<char>,
    pub expr: ExprModel,
}

/// The ghost form of the expressions this entry point accepts: literals
/// and identifiers.
pub enum ExprModel {
    StrLit(Seq<char>),
    NumLit(int),
    Ident(Seq<char>),
}

/// The token at a position; past the end it reads as end-of-input.
pub open spec fn tok_at(ts: Seq<TokModel>, i: int) -> TokModel {
    if 0 <= i < ts.len() {
        ts[i]
    } else {
        TokModel::Eof
    }
}

/// The primitive type a type name denotes, or a reference to be resolved
/// by the type system.
pub open spec fn prim_of(name: Seq<char>) -> TypeModel {
    if name == "string"@ {
        TypeModel::Prim(PrimitiveType::String)
    } else if name == "int"@ {
        TypeModel::Prim(PrimitiveType::Int)
    } else if name == "float"@ {
        TypeModel::Prim(PrimitiveType::Float)
    } else if name == "bool"@ {
        TypeModel::Prim(PrimitiveType::Bool)
    } else {
        TypeModel::Ref(name)
    }
}

/// The run of `name : type` field entries starting at `i`: the fields and
/// the position after them, or `None` on the first structural mismatch.
pub open spec fn spec_fields(ts: Seq<TokModel>, i: int) -> Option<(Seq<FieldModel>, int)>
    decreases ts.len() - i,
{
    match tok_at(ts, i) {
        TokModel::Ident(n) => if tok_at(ts, i + 1) is Colon {
            match tok_at(ts, i + 2) {
                TokModel::Ident(tn) => if i + 3 <= ts.len() {
                    match spec_fields(ts, i + 3) {
                        None => None,
                        Some((rest, j)) => Some(
                            (seq![FieldModel { name: n, ty: prim_of(tn) }] + rest, j),
                        ),
                    }
                } else {
                    None
                },
                _ => None,
            }
        } else {
            None
        },
        _ => Some((Seq::empty(), i)),
    }
}

/// The expression a single token denotes, scaled for numbers; `None` when
/// the token starts no expression or an integer leaves the representable
/// numeric range.
pub open spec fn spec_expr(t: TokModel) -> Option<ExprModel> {
    match t {
        TokModel::StringLit(s) => Some(ExprModel::StrLit(s)),
        TokModel::IntLit(v) => if i64::MIN <= v * (SCALE as int) <= i64::MAX {
            Some(ExprModel::NumLit(v * (SCALE as int)))
        } else {
            None
        },
        TokModel::FloatLit(u) => Some(ExprModel::NumLit(u)),
        TokModel::Ident(n) => Some(ExprModel::Ident(n)),
        _ => None,
    }
}

/// The run of `name : -> expression` entries starting at `i`.
pub open spec fn spec_computed(ts: Seq<TokModel>, i: int) -> Option<(Seq<CompModel>, int)>
    decreases ts.len() - i,
{
    match tok_at(ts, i) {
        TokModel::Ident(n) => if tok_at(ts, i + 1) is Colon && tok_at(ts, i + 2) is Arrow {
            match spec_expr(tok_at(ts, i + 3)) {
                None => None,
                Some(e) => if i + 4 <= ts.len() {
                    match spec_computed(ts, i + 4) {
                        None => None,
                        Some((rest, j)) => Some(
                            (seq![CompModel { name: n, expr: e }] + rest, j),
                        ),
                    }
                } else {
                    None
                },
            }
        } else {
            None
        },
        _ => Some((Seq::empty(), i)),
    }
}

/// One pass over the body: recognized sections fill the document,
/// unrecognized tokens are skipped, and the closing brace ends it.
pub open spec fn spec_body(ts: Seq<TokModel>, i: int, acc: SpecModel) -> Option<SpecModel>
    decreases ts.len() - i,
    via spec_body_dec
{
    match tok_at(ts, i) {
        TokModel::RBrace => Some(acc),
        TokModel::Eof => None,
        TokModel::Description => if tok_at(ts, i + 1) is Colon {
            match tok_at(ts, i + 2) {
                TokModel::StringLit(d) => spec_body(
                    ts,
                    i + 3,
                    SpecModel { description: Some(d), ..acc },
                ),
                _ => None,
            }
        } else {
            None
        },
        TokModel::Inputs => if tok_at(ts, i + 1) is Colon {
            match spec_fields(ts, i + 2) {
                None => None,
                Some((fs, j)) => spec_body(ts, j, SpecModel { inputs: fs, ..acc }),
            }
        } else {
            None
        },
        TokModel::Computed => if tok_at(ts, i + 1) is Colon {
            match spec_computed(ts, i + 2) {
                None => None,
                Some((cs, j)) => spec_body(ts, j, SpecModel { computed: cs, ..acc }),
            }
        } else {
            None
        },
        _ => spec_body(ts, i + 1, acc),
    }
}

/// Field runs move the cursor forward and stay inside the tokens.
pub proof fn lemma_fields_bounds(ts: Seq<TokModel>, i: int)
    ensures
        spec_fields(ts, i) matches Some((_, j)) ==> i <= j && (i <= ts.len() ==> j <= ts.len()),
    decreases ts.len() - i,
{
    if tok_at(ts, i) is Ident && tok_at(ts, i + 1) is Colon && tok_at(ts, i + 2) is Ident && i + 3
        <= ts.len() {
        lemma_fields_bounds(ts, i + 3);
    }
}

/// Computed runs move the cursor forward and stay inside the tokens.
pub proof fn lemma_computed_bounds(ts: Seq<TokModel>, i: int)
    ensures
        spec_computed(ts, i) matches Some((_, j)) ==> i <= j && (i <= ts.len() ==> j
            <= ts.len()),
    decreases ts.len() - i,
{
    if tok_at(ts, i) is Ident && tok_at(ts, i + 1) is Colon && tok_at(ts, i + 2) is Arrow
        && spec_expr(tok_at(ts, i + 3)) is Some && i + 4 <= ts.len() {
        lemma_computed_bounds(ts, i + 4);
    }
}

#[via_fn]
proof fn spec_body_dec(ts: Seq<TokModel>, i: int, acc: SpecModel) {
    match tok_at(ts, i) {
        TokModel::Inputs => {
            lemma_fields_bounds(ts, i + 2);
            if tok_at(ts, i) is Inputs {
                assert(i < ts.len());
            }
        },
        TokModel::Computed => {
            lemma_computed_bounds(ts, i + 2);
            if tok_at(ts, i) is Computed {
                assert(i < ts.len());
            }
        },
        _ => {
            if !(tok_at(ts, i) is Eof) {
                assert(i < ts.len());
            }
        },
    }
}

/// The document a token sequence parses to, or `None` when parsing aborts
/// at the first structural error.
pub open spec fn spec_parse(ts: Seq<TokModel>) -> Option<SpecModel> {
    if tok_at(ts, 0) is Spec {
        match tok_at(ts, 1) {
            TokModel::StringLit(name) => match tok_at(ts, 2) {
                TokModel::Version(ma, mi, pa) => if tok_at(ts, 3) is LBrace {
                    spec_body(
                        ts,
                        4,
                        SpecModel {
                            name: name,
                            major: ma,
                            minor: mi,
                            patch: pa,
                            description: None,
                            inputs: Seq::empty(),
                            computed: Seq::empty(),
                        },
                    )
                } else {
                    None
                },
                _ => None,
            },
            _ => None,
        }
    } else {
        None
    }
}

/// Whether a parsed type expression realizes its ghost form.
pub open spec fn ty_matches(t: TypeExpr, m: TypeModel) -> bool {
    match (t, m) {
        (TypeExpr::Primitive(p), TypeModel::Prim(q)) => p == q,
        (TypeExpr::Reference(n), TypeModel::Ref(s)) => n@ == s,
        _ => false,
    }
}

/// Whether a parsed field realizes its ghost form.
pub open spec fn field_matches(f: FieldDef, m: FieldModel) -> bool {
    f.name@ == m.name && f.modifiers@.len() == 0 && ty_matches(f.type_expr, m.ty)
}

/// Whether a parsed expression realizes its ghost form.
pub open spec fn expr_matches(e: Expression, m: ExprModel) -> bool {
    match (e, m) {
        (Expression::StringLiteral(s), ExprModel::StrLit(t)) => s@ == t,
        (Expression::Number(n), ExprModel::NumLit(u)) => n.spec_units() == u,
        (Expression::Identifier(s), ExprModel::Ident(t)) => s@ == t,
        _ => false,
    }
}

/// Whether a parsed computed field realizes its ghost form.
pub open spec fn comp_matches(c: ComputedField, m: CompModel) -> bool {
    c.name@ == m.name && expr_matches(c.expression, m.expr)
}

/// Whether a parsed document realizes its ghost form: name, version and
/// description agree, inputs and computed fields agree pointwise, and the
/// lists this entry point never fills are empty.
pub open spec fn spec_matches(s: Spec, m: SpecModel) -> bool {
    &&& s.name@ == m.name
    &&& s.version.major as int == m.major
    &&& s.version.minor as int == m.minor
    &&& match (s.version.patch, m.patch) {
        (Some(a), Some(b)) => a as int == b,
        (None, None) => true,
        _ => false,
    }
    &&& match (s.description, m.description) {
        (Some(a), Some(b)) => a@ == b,
        (None, None) => true,
        _ => false,
    }
    &&& s.inputs@.len() == m.inputs.len()
    &&& forall|k: int| 0 <= k < m.inputs.len() ==> field_matches(#[trigger] s.inputs@[k], m.inputs[k])
    &&& s.computed@.len() == m.computed.len()
    &&& forall|k: int|
        0 <= k < m.computed.len() ==> comp_matches(#[trigger] s.computed@[k], m.computed[k])
    &&& s.events@.len() == 0
    &&& s.constraints@.len() == 0
    &&& s.lifecycle@.len() == 0
    &&& s.extensions@.len() == 0
    &&& s.types@.len() == 0
}


/// Pointwise realization of a field list.
pub open spec fn fields_match(fs: Seq<FieldDef>, fm: Seq<FieldModel>) -> bool {
    fs.len() == fm.len() && (forall|k: int|
        0 <= k < fm.len() ==> field_matches(#[trigger] fs[k], fm[k]))
}

/// Pointwise realization of a computed-field list.
pub open spec fn comps_match(cs: Seq<ComputedField>, cm: Seq<CompModel>) -> bool {
    cs.len() == cm.len() && (forall|k: int|
        0 <= k < cm.len() ==> comp_matches(#[trigger] cs[k], cm[k]))
}

/// A usable token list: non-empty, ending in the end-of-input marker.
pub open spec fn wf_tokens(ts: Seq<Token>) -> bool {
    ts.len() > 0 && ts[ts.len() - 1].model() is Eof
}

/// The recursive-descent parser over one token list.
pub struct SigmosParser {
    tokens: Vec<Token>,
}

impl SigmosParser {
    /// Parse a complete specification from source text: tokenize, then
    /// run the grammar. The result is exactly what the ghost tokenizer
    /// and ghost parser describe; the first lexical or structural mismatch
    /// aborts with a grammar error.
    pub fn parse_spec(input: &str) -> (r: ParseResult<Spec>)
        ensures
            match spec_tokens(input@, 0) {
                None => r is Err && r->Err_0 is Grammar,
                Some(ms) => match spec_parse(ms) {
                    None => r is Err && r->Err_0 is Grammar,
                    Some(m) => r matches Ok(s) && spec_matches(s, m),
                },
            },
    {
        let tokens = match tokenize(input) {
            Ok(ts) => ts,
            Err(e) => {
                return Err(e);
            },
        };
        proof {
            lemma_spec_tokens_eof(input@, 0);
            assert(tokens_model(tokens@).last() == tokens@[tokens@.len() - 1].model());
        }
        let parser = SigmosParser { tokens };
        Self::parse_specification(&parser.tokens)
    }

    /// Parse the document structure from a token list.
    fn parse_specification(toks: &Vec<Token>) -> (r: ParseResult<Spec>)
        requires
            wf_tokens(toks@),
        ensures
            match spec_parse(tokens_model(toks@)) {
                None => r is Err && r->Err_0 is Grammar,
                Some(m) => r matches Ok(s) && spec_matches(s, m),
            },
    {
        let ghost ms = tokens_model(toks@);
        proof {
            assert(ms.len() == toks@.len());
            assert(forall|k: int| 0 <= k < toks@.len() ==> ms[k] == (#[trigger] toks@[k]).model());
        }
        if !(matches!(&toks[0], Token::Spec)) {
            return Err(ParseError::Grammar(expected_found("Expected keyword 'spec'", &toks[0])));
        }
        let name = match &toks[1] {
            Token::StringLiteral(s) => s.clone(),
            _ => {
                return Err(
                    ParseError::Grammar(
                        expected_found("Expected spec name as string literal", &toks[1]),
                    ),
                );
            },
        };
        let version = match &toks[2] {
            Token::Version(ma, mi, pa) => Version { major: *ma, minor: *mi, patch: *pa },
            _ => {
                return Err(
                    ParseError::Grammar(expected_found("Expected a version such as v1.0", &toks[2])),
                );
            },
        };
        if !(matches!(&toks[3], Token::LeftBrace)) {
            return Err(ParseError::Grammar(expected_found("Expected opening brace", &toks[3])));
        }
        let mut spec = Spec {
            name,
            version,
            description: None,
            inputs: Vec::new(),
            computed: Vec::new(),
            events: Vec::new(),
            constraints: Vec::new(),
            lifecycle: Vec::new(),
            extensions: Vec::new(),
            types: Vec::new(),
        };
        let ghost mut accm = SpecModel {
            name: spec.name@,
            major: spec.version.major as int,
            minor: spec.version.minor as int,
            patch: match spec.version.patch {
                Some(p) => Some(p as int),
                None => None,
            },
            description: None,
            inputs: Seq::empty(),
            computed: Seq::empty(),
        };
        let mut cur: usize = 4;
        proof {
            assert(spec_body(ms, 4, accm) == spec_parse(ms));
            assert(spec_matches(spec, accm));
        }
        loop
            invariant
                wf_tokens(toks@),
                ms == tokens_model(toks@),
                ms.len() == toks@.len(),
                forall|k: int| 0 <= k < toks@.len() ==> ms[k] == (#[trigger] toks@[k]).model(),
                cur < toks.len(),
                spec_body(ms, cur as int, accm) == spec_parse(ms),
                spec_matches(spec, accm),
            decreases toks.len() - cur,
        {
            match &toks[cur] {
                Token::RightBrace => {
                    return Ok(spec);
                },
                Token::Eof => {
                    return Err(
                        ParseError::Grammar(expected_found("Expected closing brace", &toks[cur])),
                    );
                },
                Token::Description => {
                    if !(matches!(&toks[cur + 1], Token::Colon)) {
                        return Err(
                            ParseError::Grammar(
                                expected_found("Expected colon after section keyword", &toks[cur
                                    + 1]),
                            ),
                        );
                    }
                    match &toks[cur + 2] {
                        Token::StringLiteral(d) => {
                            spec.description = Some(d.clone());
                            proof {
                                accm = SpecModel { description: Some(d@), ..accm };
                            }
                            cur = cur + 3;
                        },
                        _ => {
                            return Err(
                                ParseError::Grammar(
                                    expected_found(
                                        "Expected string literal for description",
                                        &toks[cur + 2],
                                    ),
                                ),
                            );
                        },
                    }
                },
                Token::Inputs => {
                    if !(matches!(&toks[cur + 1], Token::Colon)) {
                        return Err(
                            ParseError::Grammar(
                                expected_found("Expected colon after section keyword", &toks[cur
                                    + 1]),
                            ),
                        );
                    }
                    match Self::parse_field_list(toks, cur + 2) {
                        Ok((fs, j)) => {
                            proof {
                                lemma_fields_bounds(ms, cur as int + 2);
                                accm = SpecModel {
                                    inputs: (spec_fields(ms, cur as int + 2)->0).0,
                                    ..accm
                                };
                            }
                            spec.inputs = fs;
                            cur = j;
                        },
                        Err(e) => {
                            return Err(e);
                        },
                    }
                },
                Token::Computed => {
                    if !(matches!(&toks[cur + 1], Token::Colon)) {
                        return Err(
                            ParseError::Grammar(
                                expected_found("Expected colon after section keyword", &toks[cur
                                    + 1]),
                            ),
                        );
                    }
                    match Self::parse_computed_fields(toks, cur + 2) {
                        Ok((cs, j)) => {
                            proof {
                                lemma_computed_bounds(ms, cur as int + 2);
                                accm = SpecModel {
                                    computed: (spec_computed(ms, cur as int + 2)->0).0,
                                    ..accm
                                };
                            }
                            spec.computed = cs;
                            cur = j;
                        },
                        Err(e) => {
                            return Err(e);
                        },
                    }
                },
                _ => {
                    cur = cur + 1;
                },
            }
        }
    }

    /// Parse a run of `name : type` field entries.
    fn parse_field_list(toks: &Vec<Token>, i: usize) -> (r: ParseResult<(Vec<FieldDef>, usize)>)
        requires
            wf_tokens(toks@),
            i < toks@.len(),
        ensures
            match r {
                Ok((fs, j)) => spec_fields(tokens_model(toks@), i as int) matches Some((fm, jm))
                    && fields_match(fs@, fm) && j as int == jm && j < toks@.len(),
                Err(e) => spec_fields(tokens_model(toks@), i as int) is None && e is Grammar,
            },
    {
        let ghost ms = tokens_model(toks@);
        proof {
            assert(forall|k: int| 0 <= k < toks@.len() ==> ms[k] == (#[trigger] toks@[k]).model());
        }
        let mut fields: Vec<FieldDef> = Vec::new();
        let ghost mut accm: Seq<FieldModel> = Seq::empty();
        let mut cur = i;
        proof {
            assert(accm + (spec_fields(ms, i as int)->0).0 =~= (spec_fields(ms, i as int)->0).0);
        }
        loop
            invariant
                wf_tokens(toks@),
                ms == tokens_model(toks@),
                ms.len() == toks@.len(),
                forall|k: int| 0 <= k < toks@.len() ==> ms[k] == (#[trigger] toks@[k]).model(),
                i <= cur < toks.len(),
                fields_match(fields@, accm),
                match spec_fields(ms, cur as int) {
                    None => spec_fields(ms, i as int) is None,
                    Some((rest, j)) => spec_fields(ms, i as int) matches Some((whole, jw))
                        && whole == accm + rest && jw == j,
                },
            decreases toks.len() - cur,
        {
            match &toks[cur] {
                Token::Identifier(name) => {
                    if !(matches!(&toks[cur + 1], Token::Colon)) {
                        return Err(
                            ParseError::Grammar(
                                expected_found("Expected colon after field name", &toks[cur + 1]),
                            ),
                        );
                    }
                    let type_expr = match Self::parse_type_expr(toks, cur + 2) {
                        Ok(t) => t,
                        Err(e) => {
                            return Err(e);
                        },
                    };
                    let ghost fm = FieldModel {
                        name: name@,
                        ty: prim_of(ms[cur as int + 2]->Ident_0),
                    };
                    let field = FieldDef { name: name.clone(), type_expr, modifiers: Vec::new() };
                    fields.push(field);
                    proof {
                        let ghost prev = accm;
                        accm = accm.push(fm);
                        match spec_fields(ms, cur as int + 3) {
                            Some(p) => {
                                assert(accm + p.0 =~= prev + (seq![fm] + p.0));
                            },
                            None => {},
                        }
                    }
                    cur = cur + 3;
                },
                _ => {
                    return Ok((fields, cur));
                },
            }
        }
    }

    /// Parse a run of `name : -> expression` computed-field entries.
    fn parse_computed_fields(toks: &Vec<Token>, i: usize) -> (r: ParseResult<
        (Vec<ComputedField>, usize),
    >)
        requires
            wf_tokens(toks@),
            i < toks@.len(),
        ensures
            match r {
                Ok((cs, j)) => spec_computed(tokens_model(toks@), i as int) matches Some((cm, jm))
                    && comps_match(cs@, cm) && j as int == jm && j < toks@.len(),
                Err(e) => spec_computed(tokens_model(toks@), i as int) is None && e is Grammar,
            },
    {
        let ghost ms = tokens_model(toks@);
        proof {
            assert(forall|k: int| 0 <= k < toks@.len() ==> ms[k] == (#[trigger] toks@[k]).model());
        }
        let mut comps: Vec<ComputedField> = Vec::new();
        let ghost mut accm: Seq<CompModel> = Seq::empty();
        let mut cur = i;
        proof {
            assert(accm + (spec_computed(ms, i as int)->0).0 =~= (spec_computed(ms, i as int)->0).0);
        }
        loop
            invariant
                wf_tokens(toks@),
                ms == tokens_model(toks@),
                ms.len() == toks@.len(),
                forall|k: int| 0 <= k < toks@.len() ==> ms[k] == (#[trigger] toks@[k]).model(),
                i <= cur < toks.len(),
                comps_match(comps@, accm),
                match spec_computed(ms, cur as int) {
                    None => spec_computed(ms, i as int) is None,
                    Some((rest, j)) => spec_computed(ms, i as int) matches Some((whole, jw))
                        && whole == accm + rest && jw == j,
                },
            decreases toks.len() - cur,
        {
            match &toks[cur] {
                Token::Identifier(name) => {
                    if !(matches!(&toks[cur + 1], Token::Colon)) {
                        return Err(
                            ParseError::Grammar(
                                expected_found(
                                    "Expected colon after computed field name",
                                    &toks[cur + 1],
                                ),
                            ),
                        );
                    }
                    if !(matches!(&toks[cur + 2], Token::Arrow)) {
                        return Err(
                            ParseError::Grammar(
                                expected_found(
                                    "Expected arrow before computed expression",
                                    &toks[cur + 2],
                                ),
                            ),
                        );
                    }
                    let expression = match Self::parse_expression(toks, cur + 3) {
                        Ok(e) => e,
                        Err(e) => {
                            return Err(e);
                        },
                    };
                    let ghost cm = CompModel {
                        name: name@,
                        expr: spec_expr(ms[cur as int + 3])->0,
                    };
                    let comp = ComputedField { name: name.clone(), expression };
                    comps.push(comp);
                    proof {
                        let ghost prev = accm;
                        accm = accm.push(cm);
                        match spec_computed(ms, cur as int + 4) {
                            Some(p) => {
                                assert(accm + p.0 =~= prev + (seq![cm] + p.0));
                            },
                            None => {},
                        }
                    }
                    cur = cur + 4;
                },
                _ => {
                    return Ok((comps, cur));
                },
            }
        }
    }

    /// Parse the type expression named by the token at `i`: the primitive
    /// type names map to primitives, any other name becomes a reference to
    /// be resolved later by the type system.
    fn parse_type_expr(toks: &Vec<Token>, i: usize) -> (r: ParseResult<TypeExpr>)
        requires
            i < toks@.len(),
        ensures
            match r {
                Ok(ty) => tokens_model(toks@)[i as int] matches TokModel::Ident(tn) && ty_matches(
                    ty,
                    prim_of(tn),
                ),
                Err(e) => !(tokens_model(toks@)[i as int] is Ident) && e is Grammar,
            },
    {
        proof {
            assert(tokens_model(toks@)[i as int] == toks@[i as int].model());
        }
        match &toks[i] {
            Token::Identifier(tyname) => {
                if str_is(tyname, "string") {
                    Ok(TypeExpr::Primitive(PrimitiveType::String))
                } else if str_is(tyname, "int") {
                    Ok(TypeExpr::Primitive(PrimitiveType::Int))
                } else if str_is(tyname, "float") {
                    Ok(TypeExpr::Primitive(PrimitiveType::Float))
                } else if str_is(tyname, "bool") {
                    Ok(TypeExpr::Primitive(PrimitiveType::Bool))
                } else {
                    Ok(TypeExpr::Reference(tyname.clone()))
                }
            },
            _ => Err(ParseError::Grammar(expected_found("Expected type name", &toks[i]))),
        }
    }

    /// Parse the expression denoted by the single token at `i`: a string,
    /// numeric or identifier expression. An integer too large for the
    /// numeric range is a grammar error.
    fn parse_expression(toks: &Vec<Token>, i: usize) -> (r: ParseResult<Expression>)
        requires
            i < toks@.len(),
        ensures
            match r {
                Ok(e) => spec_expr(tokens_model(toks@)[i as int]) matches Some(m) && expr_matches(
                    e,
                    m,
                ),
                Err(err) => spec_expr(tokens_model(toks@)[i as int]) is None && err is Grammar,
            },
    {
        proof {
            assert(tokens_model(toks@)[i as int] == toks@[i as int].model());
        }
        match &toks[i] {
            Token::StringLiteral(s) => Ok(Expression::StringLiteral(s.clone())),
            Token::IntLiteral(v) => {
                if -9_223_372_036_854i64 <= *v && *v <= 9_223_372_036_854i64 {
                    Ok(Expression::Number(Num::from_i64(*v)))
                } else {
                    Err(ParseError::Grammar(String::from_str("Number literal out of range")))
                }
            },
            Token::FloatLiteral(n) => Ok(Expression::Number(*n)),
            Token::Identifier(id) => Ok(Expression::Identifier(id.clone())),
            _ => Err(ParseError::Grammar(expected_found("Expected expression", &toks[i]))),
        }
    }
}

/// A grammar-error message naming what was expected and what was found.
fn expected_found(expected: &str, found: &Token) -> (r: String) {
    let mut m = String::from_str(expected);
    m.append(", found ");
    m.append(found.describe());
    m
}

/// Whether a string's characters equal a literal's.
fn str_is(w: &String, lit: &str) -> (r: bool)
    ensures
        r == (w@ == lit@),
{
    let l = String::from_str(lit);
    *w == l
}

} // verus!
