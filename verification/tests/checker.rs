//! The borrow checker on whole programs, written in the source language and parsed here.

use cplus_core::addr::fns_with_address_taken;
use cplus_core::ast::{
    AssignOp, AttrArg, Attribute, BinaryOp, Block, ConstDecl, EnumDecl, Expr, ExprKind, FieldDecl, FieldInit, ForLoop,
    Function, GenericParam, Ident, ImplBlock, InterpStrPart, Item, ItemKind, MatchArm, Method, Param, Pattern,
    PatternKind, PatternLit, Program, Receiver, Span, StaticDecl, Stmt, StmtKind, StructDecl, Type, TypeKind, UnaryOp,
    VariantDecl,
};
use cplus_core::borrowck::{analyze, check, check_multi, dedupe_conflicts_at_one_span, Finding, SourceFile};
use cplus_core::diagnostics::{from_parse, DiagCode, LineMap};
use cplus_core::elision::{BorrowFlavor, ReturnBorrowSource};
use cplus_core::errors::{ParseError, ParseErrorKind};
use cplus_core::lexer::{tokenize, TokenKind};
use cplus_core::messages::RawDiag;
use cplus_core::oracle::CopyOracle;
use cplus_core::ordered::OrdMap;
use cplus_core::place::{fmt_state, place_from_expr, Place, PlaceOverlap, PlaceState, Projection};
use cplus_core::rounds::compute_receiver_flows;
use cplus_core::sigs::{
    type_mentions_name, SigTable, method_return_borrow_source, method_return_borrow_source_with_flavor, return_borrow_source,
    return_borrow_source_with_flavor,
};

// ---- a parser for the programs below ----

struct Word {
    kind: TokenKind,
    text: String,
    span: Span,
}

struct Parser {
    words: Vec<Word>,
    at: usize,
}

type Parsed<T> = Result<T, ParseError>;

fn words(src: &str, base: u32) -> Vec<Word> {
    let toks = tokenize(src).expect("lex");
    toks.iter()
        .map(|t| Word {
            kind: t.kind,
            text: src[t.span.start as usize..t.span.end as usize].to_string(),
            span: Span { start: t.span.start + base, end: t.span.end + base },
        })
        .collect()
}

fn join(a: Span, b: Span) -> Span {
    Span { start: a.start.min(b.start), end: a.end.max(b.end) }
}

fn upper(s: &str) -> bool {
    s.chars().next().map(|c| c.is_ascii_uppercase()).unwrap_or(false)
}

fn name_text(s: &str) -> String {
    if s == "this" { "self".to_string() } else { s.to_string() }
}

impl Parser {
    fn new(src: &str) -> Parser {
        Parser { words: words(src, 0), at: 0 }
    }

    fn peek(&self) -> &str {
        &self.words[self.at].text
    }

    fn peek_at(&self, k: usize) -> &str {
        let i = (self.at + k).min(self.words.len() - 1);
        &self.words[i].text
    }

    fn kind(&self) -> TokenKind {
        self.words[self.at].kind
    }

    fn span(&self) -> Span {
        self.words[self.at].span
    }

    fn last_span(&self) -> Span {
        self.words[self.at - 1].span
    }

    fn done(&self) -> bool {
        self.kind() == TokenKind::Eof
    }

    fn is(&self, t: &str) -> bool {
        !self.done() && self.peek() == t && self.kind() != TokenKind::Str
    }

    fn eat(&mut self, t: &str) -> bool {
        if self.is(t) {
            self.at += 1;
            true
        } else {
            false
        }
    }

    fn fail<T>(&self, expected: &'static str) -> Parsed<T> {
        let kind = if self.done() {
            ParseErrorKind::UnexpectedEof { expected }
        } else {
            ParseErrorKind::Unexpected { found: self.peek().to_string(), expected }
        };
        Err(ParseError { kind, span: self.span() })
    }

    fn need(&mut self, t: &'static str, expected: &'static str) -> Parsed<Span> {
        if self.eat(t) {
            Ok(self.last_span())
        } else {
            self.fail(expected)
        }
    }

    fn is_word(&self) -> bool {
        let c = self.peek().chars().next().unwrap_or(' ');
        !self.done() && (c.is_ascii_alphabetic() || c == '_') && self.kind() != TokenKind::CStr
    }

    fn ident(&mut self) -> Parsed<Ident> {
        if !self.is_word() {
            return self.fail("a name");
        }
        let id = Ident { name: name_text(self.peek()), span: self.span() };
        self.at += 1;
        Ok(id)
    }

    fn program(&mut self) -> Parsed<Program> {
        let mut items = Vec::new();
        while !self.done() {
            items.push(Item { kind: self.item()?, origin_file: None });
        }
        Ok(Program { items })
    }

    fn attributes(&mut self) -> Parsed<Vec<Attribute>> {
        let mut out = Vec::new();
        while self.is("#") && self.peek_at(1) == "[" {
            self.at += 2;
            let path = self.ident()?;
            let mut args = Vec::new();
            if self.eat("(") {
                while !self.eat(")") {
                    if self.kind() == TokenKind::Str {
                        let t = self.peek().to_string();
                        args.push(AttrArg::Str(t[1..t.len() - 1].to_string(), self.span()));
                        self.at += 1;
                    } else {
                        let mut id = self.ident()?;
                        if self.words[self.at - 1].text == "this" {
                            id.name = "this".to_string();
                        }
                        args.push(AttrArg::Ident(id));
                    }
                    self.eat(",");
                }
            }
            self.need("]", "`]`")?;
            out.push(Attribute { path, args });
        }
        Ok(out)
    }

    fn generics(&mut self) -> Parsed<Vec<GenericParam>> {
        let mut out = Vec::new();
        if self.eat("[") {
            while !self.eat("]") {
                let name = self.ident()?;
                if self.eat(":") {
                    self.ty()?;
                }
                out.push(GenericParam { name });
                self.eat(",");
            }
        }
        Ok(out)
    }

    fn item(&mut self) -> Parsed<ItemKind> {
        let attributes = self.attributes()?;
        self.eat("pub");
        let foreign = self.is_word() && self.peek() == "extern";
        if foreign {
            self.at += 1;
        }
        if self.is("fn") {
            return Ok(ItemKind::Function(self.function(attributes, foreign)?));
        }
        if self.eat("struct") {
            let name = self.ident()?;
            let generic_params = self.generics()?;
            let mut fields = Vec::new();
            self.need("{", "`{`")?;
            while !self.eat("}") {
                self.attributes()?;
                self.eat("pub");
                let is_opaque = self.is("opaque") && self.peek_at(1) != ":";
                if is_opaque {
                    self.at += 1;
                }
                let fname = self.ident()?;
                self.need(":", "`:`")?;
                let ty = self.ty()?;
                fields.push(FieldDecl { name: fname, ty, is_opaque });
                self.eat(",");
            }
            return Ok(ItemKind::Struct(StructDecl { name, generic_params, fields, attributes }));
        }
        if self.eat("enum") {
            let name = self.ident()?;
            let generic_params = self.generics()?;
            let mut variants = Vec::new();
            self.need("{", "`{`")?;
            while !self.eat("}") {
                let vname = self.ident()?;
                let mut payload = Vec::new();
                if self.eat("(") {
                    while !self.eat(")") {
                        payload.push(self.ty()?);
                        self.eat(",");
                    }
                }
                variants.push(VariantDecl { name: vname, payload });
                self.eat(",");
            }
            return Ok(ItemKind::Enum(EnumDecl { name, generic_params, variants }));
        }
        if self.eat("impl") {
            let target = self.ident()?;
            let target_generic_params = self.generics()?;
            if self.eat(":") {
                self.ty()?;
            }
            let mut methods = Vec::new();
            self.need("{", "`{`")?;
            while !self.eat("}") {
                let attributes = self.attributes()?;
                self.eat("pub");
                methods.push(self.method(attributes)?);
            }
            return Ok(ItemKind::Impl(ImplBlock { target, target_generic_params, methods }));
        }
        if self.eat("static") {
            self.eat("var");
            let name = self.ident()?;
            self.need(":", "`:`")?;
            let ty = self.ty()?;
            let init = if self.eat("=") { Some(self.expr()?) } else { None };
            self.need(";", "`;`")?;
            return Ok(ItemKind::Static(StaticDecl { name, ty, init }));
        }
        if self.eat("const") {
            let name = self.ident()?;
            self.need(":", "`:`")?;
            let ty = self.ty()?;
            self.need("=", "`=`")?;
            let init = self.expr()?;
            self.need(";", "`;`")?;
            return Ok(ItemKind::Const(ConstDecl { name, ty, init }));
        }
        if self.eat("type") {
            let name = self.ident()?;
            self.need("=", "`=`")?;
            let ty = self.ty()?;
            self.need(";", "`;`")?;
            return Ok(ItemKind::TypeAlias(name, ty));
        }
        if self.eat("interface") {
            let name = self.ident()?;
            self.need("{", "`{`")?;
            let mut depth = 1;
            while depth > 0 {
                if self.eat("{") {
                    depth += 1;
                } else if self.eat("}") {
                    depth -= 1;
                } else {
                    self.at += 1;
                }
            }
            return Ok(ItemKind::Interface(name));
        }
        self.fail("an item")
    }

    fn param(&mut self) -> Parsed<Param> {
        let mutable = self.eat("ref");
        let move_ = self.is("take") && self.peek_at(1) != ":" && {
            self.at += 1;
            true
        };
        let name = self.ident()?;
        self.need(":", "`:`")?;
        let ty = self.ty()?;
        if self.eat("=") {
            self.expr()?;
        }
        Ok(Param { name, ty, mutable, move_ })
    }

    fn rest_of_fn(&mut self) -> Parsed<(Option<Type>, Block, bool)> {
        let ret = if self.eat("->") { Some(self.ty()?) } else { None };
        if self.eat(";") {
            let span = self.last_span();
            return Ok((ret, Block { stmts: Vec::new(), tail: None, span }, true));
        }
        Ok((ret, self.block()?, false))
    }

    fn function(&mut self, attributes: Vec<Attribute>, is_foreign: bool) -> Parsed<Function> {
        self.need("fn", "`fn`")?;
        let name = self.ident()?;
        let generic_params = self.generics()?;
        self.need("(", "`(`")?;
        let mut params = Vec::new();
        while !self.eat(")") {
            params.push(self.param()?);
            self.eat(",");
        }
        let (return_type, body, bare) = self.rest_of_fn()?;
        Ok(Function {
            name,
            generic_params,
            params,
            return_type,
            body,
            attributes,
            is_foreign,
            is_declaration: bare && !is_foreign,
        })
    }

    fn method(&mut self, attributes: Vec<Attribute>) -> Parsed<Method> {
        self.need("fn", "`fn`")?;
        let name = self.ident()?;
        let generic_params = self.generics()?;
        self.need("(", "`(`")?;
        let mut receiver = None;
        if self.eat("this") {
            receiver = Some(Receiver::Read);
        } else if self.is("ref") && self.peek_at(1) == "this" {
            self.at += 2;
            receiver = Some(Receiver::Mut);
        } else if self.is("take") && self.peek_at(1) == "this" {
            self.at += 2;
            receiver = Some(Receiver::Move);
        }
        self.eat(",");
        let mut params = Vec::new();
        while !self.eat(")") {
            params.push(self.param()?);
            self.eat(",");
        }
        let (return_type, body, is_declaration) = self.rest_of_fn()?;
        Ok(Method { name, generic_params, receiver, params, return_type, body, attributes, is_declaration })
    }

    fn ty(&mut self) -> Parsed<Type> {
        let start = self.span();
        let kind = if self.eat("*") {
            TypeKind::RawPtr(Box::new(self.ty()?))
        } else if self.eat("[") {
            let elem = self.ty()?;
            if self.eat(";") {
                let len: u64 = self.peek().parse().expect("array length");
                self.at += 1;
                self.need("]", "`]`")?;
                TypeKind::Array { elem: Box::new(elem), len }
            } else {
                self.need("]", "`]`")?;
                if self.is_word() || self.is("[") || self.is("*") {
                    return self.fail("a type");
                }
                TypeKind::Slice(Box::new(elem))
            }
        } else if self.eat("(") {
            let mut elems = Vec::new();
            while !self.eat(")") {
                elems.push(self.ty()?);
                self.eat(",");
            }
            TypeKind::Tuple(elems)
        } else if self.eat("fn") {
            self.need("(", "`(`")?;
            let mut params = Vec::new();
            let mut param_takes = Vec::new();
            let mut param_refs = Vec::new();
            while !self.eat(")") {
                let r = self.eat("ref");
                let t = self.eat("take");
                if self.is_word() && self.peek_at(1) == ":" {
                    self.at += 2;
                }
                params.push(self.ty()?);
                param_takes.push(t);
                param_refs.push(r);
                self.eat(",");
            }
            let ret = if self.eat("->") { Some(Box::new(self.ty()?)) } else { None };
            TypeKind::FnPtr { params, param_takes, param_refs, ret }
        } else {
            let name = self.ident()?;
            let raw = self.words[self.at - 1].text.clone();
            if self.is("[") {
                let args = self.type_args()?;
                TypeKind::Generic { name: name.name, args }
            } else {
                TypeKind::Path(if raw == "this" { raw } else { name.name })
            }
        };
        Ok(Type { kind, span: join(start, self.last_span()) })
    }

    fn type_args(&mut self) -> Parsed<Vec<Type>> {
        self.need("[", "`[`")?;
        let mut out = Vec::new();
        while !self.eat("]") {
            out.push(self.ty()?);
            self.eat(",");
        }
        Ok(out)
    }

    fn block(&mut self) -> Parsed<Block> {
        let start = self.need("{", "`{`")?;
        let mut stmts = Vec::new();
        let mut tail = None;
        while !self.is("}") {
            if self.done() {
                return self.fail("`}`");
            }
            match self.stmt_or_tail()? {
                Ok(s) => stmts.push(s),
                Err(e) => tail = Some(Box::new(e)),
            }
            if tail.is_some() && !self.is("}") {
                return self.fail("`;`");
            }
        }
        self.at += 1;
        Ok(Block { stmts, tail, span: join(start, self.last_span()) })
    }

    fn stmt(&self, kind: StmtKind, start: Span) -> Result<Stmt, Expr> {
        Ok(Stmt { kind, span: join(start, self.last_span()) })
    }

    fn stmt_or_tail(&mut self) -> Parsed<Result<Stmt, Expr>> {
        let start = self.span();
        if self.is("let") || self.is("var") {
            let mutable = self.is("var");
            self.at += 1;
            let name = self.ident()?;
            if self.eat("{") {
                let mut fields = Vec::new();
                while !self.eat("}") {
                    fields.push(self.ident()?);
                    self.eat(",");
                }
                self.need("=", "`=`")?;
                let init = self.expr()?;
                self.need(";", "`;`")?;
                return Ok(self.stmt(StmtKind::LetDestructure { struct_name: name, fields, init }, start));
            }
            let ty = if self.eat(":") { Some(self.ty()?) } else { None };
            let init = if self.eat("=") { Some(self.expr()?) } else { None };
            self.need(";", "`;`")?;
            return Ok(self.stmt(StmtKind::Let { name, mutable, ty, init }, start));
        }
        if self.eat("return") {
            let value = if self.is(";") { None } else { Some(self.expr()?) };
            self.need(";", "`;`")?;
            return Ok(self.stmt(StmtKind::Return(value), start));
        }
        if self.eat("break") {
            self.need(";", "`;`")?;
            return Ok(self.stmt(StmtKind::Break, start));
        }
        if self.eat("continue") {
            self.need(";", "`;`")?;
            return Ok(self.stmt(StmtKind::Continue, start));
        }
        if self.eat("defer") {
            let e = self.expr()?;
            self.need(";", "`;`")?;
            return Ok(self.stmt(StmtKind::Defer(e), start));
        }
        if self.eat("assert") {
            let e = self.expr()?;
            self.need(";", "`;`")?;
            return Ok(self.stmt(StmtKind::Assert(e), start));
        }
        if self.eat("loop") {
            let b = self.block()?;
            return Ok(self.stmt(StmtKind::Loop(b), start));
        }
        if self.is("while") && self.peek_at(1) == "let" {
            self.at += 2;
            let pattern = self.pattern()?;
            self.need("=", "`=`")?;
            let value = self.expr()?;
            let body = self.block()?;
            return Ok(self.stmt(StmtKind::WhileLet { pattern, value, body }, start));
        }
        if self.eat("while") {
            let cond = self.expr()?;
            let body = self.block()?;
            return Ok(self.stmt(StmtKind::While { cond, body }, start));
        }
        if self.eat("for") {
            let fl = self.for_loop()?;
            return Ok(self.stmt(StmtKind::For(fl), start));
        }
        if self.is("if") && self.peek_at(1) == "let" {
            self.at += 2;
            let pattern = self.pattern()?;
            self.need("=", "`=`")?;
            let value = self.expr()?;
            let then = self.block()?;
            let otherwise = if self.eat("else") { Some(self.block()?) } else { None };
            return Ok(self.stmt(StmtKind::IfLet { pattern, value, then, otherwise }, start));
        }
        if self.eat("guard") {
            self.need("let", "`let`")?;
            let pattern = self.pattern()?;
            self.need("=", "`=`")?;
            let value = self.expr()?;
            self.need("else", "`else`")?;
            let otherwise = self.block()?;
            return Ok(self.stmt(StmtKind::GuardLet { pattern, value, otherwise }, start));
        }
        let block_like = self.is("if") || self.is("match") || self.is("{");
        let e = self.expr()?;
        if self.eat(";") {
            return Ok(self.stmt(StmtKind::Expr(e), start));
        }
        if self.is("}") {
            return Ok(Err(e));
        }
        if block_like {
            return Ok(self.stmt(StmtKind::Expr(e), start));
        }
        self.fail("`;`")
    }

    fn for_loop(&mut self) -> Parsed<ForLoop> {
        if self.is("(") {
            self.at += 1;
            let init = if self.eat(";") {
                None
            } else {
                match self.stmt_or_tail()? {
                    Ok(s) => Some(Box::new(s)),
                    Err(_) => return self.fail("`;`"),
                }
            };
            let cond = if self.is(";") { None } else { Some(self.expr()?) };
            self.need(";", "`;`")?;
            let mut update = Vec::new();
            while !self.eat(")") {
                update.push(self.expr()?);
                self.eat(",");
            }
            let body = self.block()?;
            return Ok(ForLoop::CStyle { init, cond, update, body });
        }
        let var = self.ident()?;
        self.need("in", "`in`")?;
        let iter = self.expr()?;
        let body = self.block()?;
        Ok(ForLoop::Range { var, iter, body })
    }

    fn pattern(&mut self) -> Parsed<Pattern> {
        let start = self.span();
        let kind = if self.eat("_") {
            PatternKind::Wildcard
        } else if self.kind() == TokenKind::Int {
            let n: u64 = self.peek().parse().expect("number");
            self.at += 1;
            PatternKind::Lit(PatternLit::Int(n))
        } else if self.is("true") || self.is("false") {
            let b = self.is("true");
            self.at += 1;
            PatternKind::Lit(PatternLit::Bool(b))
        } else if self.kind() == TokenKind::Str {
            let t = self.peek().to_string();
            self.at += 1;
            PatternKind::Lit(PatternLit::Str(t[1..t.len() - 1].to_string()))
        } else {
            let name = self.ident()?;
            let type_args = if self.is("[") { self.type_args()? } else { Vec::new() };
            if self.eat("::") {
                let variant_name = self.ident()?;
                let mut payload = Vec::new();
                if self.eat("(") {
                    while !self.eat(")") {
                        payload.push(self.pattern()?);
                        self.eat(",");
                    }
                }
                PatternKind::Variant { enum_name: name, type_args, variant_name, payload }
            } else {
                PatternKind::Binding(name)
            }
        };
        Ok(Pattern { kind, span: join(start, self.last_span()) })
    }

    fn expr(&mut self) -> Parsed<Expr> {
        let lhs = self.range()?;
        let op = match self.peek() {
            "=" => AssignOp::Assign,
            "+=" => AssignOp::Add,
            "-=" => AssignOp::Sub,
            "*=" => AssignOp::Mul,
            "/=" => AssignOp::Div,
            "%=" => AssignOp::Rem,
            _ => return Ok(lhs),
        };
        self.at += 1;
        let value = self.expr()?;
        let span = join(lhs.span, value.span);
        Ok(Expr { kind: ExprKind::Assign { op, target: Box::new(lhs), value: Box::new(value) }, span })
    }

    fn range(&mut self) -> Parsed<Expr> {
        let lhs = self.binary(0)?;
        if self.is("..") || self.is("..=") {
            let inclusive = self.is("..=");
            self.at += 1;
            let rhs = self.binary(0)?;
            let span = join(lhs.span, rhs.span);
            return Ok(Expr {
                kind: ExprKind::Range { start: Some(Box::new(lhs)), end: Some(Box::new(rhs)), inclusive },
                span,
            });
        }
        Ok(lhs)
    }

    fn binary_op(&self, level: usize) -> Option<BinaryOp> {
        if self.done() || self.kind() == TokenKind::Str {
            return None;
        }
        let op = match (level, self.peek()) {
            (0, "||") => BinaryOp::Or,
            (1, "&&") => BinaryOp::And,
            (2, "|") => BinaryOp::BitOr,
            (3, "^") => BinaryOp::BitXor,
            (4, "&") => BinaryOp::BitAnd,
            (5, "==") => BinaryOp::Eq,
            (5, "!=") => BinaryOp::Ne,
            (5, "<") => BinaryOp::Lt,
            (5, "<=") => BinaryOp::Le,
            (5, ">") => BinaryOp::Gt,
            (5, ">=") => BinaryOp::Ge,
            (6, "<<") => BinaryOp::Shl,
            (6, ">>") => BinaryOp::Shr,
            (7, "+") => BinaryOp::Add,
            (7, "-") => BinaryOp::Sub,
            (7, "+%") => BinaryOp::WrapAdd,
            (7, "-%") => BinaryOp::WrapSub,
            (8, "*") => BinaryOp::Mul,
            (8, "/") => BinaryOp::Div,
            (8, "%") => BinaryOp::Rem,
            (8, "*%") => BinaryOp::WrapMul,
            _ => return None,
        };
        Some(op)
    }

    fn binary(&mut self, level: usize) -> Parsed<Expr> {
        if level == 9 {
            return self.cast();
        }
        let mut lhs = self.binary(level + 1)?;
        let mut compared = false;
        while let Some(op) = self.binary_op(level) {
            if level == 5 && compared {
                return Err(ParseError { kind: ParseErrorKind::NonChainableComparison, span: self.span() });
            }
            compared = true;
            self.at += 1;
            let rhs = self.binary(level + 1)?;
            let span = join(lhs.span, rhs.span);
            lhs = Expr { kind: ExprKind::Binary { op, lhs: Box::new(lhs), rhs: Box::new(rhs) }, span };
        }
        Ok(lhs)
    }

    fn cast(&mut self) -> Parsed<Expr> {
        let mut e = self.unary()?;
        while self.eat("as") {
            let ty = self.ty()?;
            let span = join(e.span, self.last_span());
            e = Expr { kind: ExprKind::Cast { expr: Box::new(e), ty }, span };
        }
        Ok(e)
    }

    fn unary(&mut self) -> Parsed<Expr> {
        let start = self.span();
        let op = match self.peek() {
            "-" => UnaryOp::Neg,
            "!" => UnaryOp::Not,
            "~" => UnaryOp::BitNot,
            "*" => UnaryOp::Deref,
            "&" => UnaryOp::AddrOf,
            _ => return self.postfix(),
        };
        self.at += 1;
        let operand = self.unary()?;
        let span = join(start, operand.span);
        Ok(Expr { kind: ExprKind::Unary { op, operand: Box::new(operand) }, span })
    }

    fn args(&mut self) -> Parsed<Vec<Expr>> {
        self.need("(", "`(`")?;
        let mut out = Vec::new();
        while !self.eat(")") {
            out.push(self.expr()?);
            if !self.is(")") {
                self.need(",", "`,`")?;
            }
        }
        Ok(out)
    }

    fn postfix(&mut self) -> Parsed<Expr> {
        let mut e = self.primary()?;
        loop {
            let start = e.span;
            if self.is("(") {
                let args = self.args()?;
                let span = join(start, self.last_span());
                e = Expr { kind: ExprKind::Call { callee: Box::new(e), type_args: Vec::new(), args }, span };
            } else if self.is(".") {
                self.at += 1;
                let name = if self.kind() == TokenKind::Int {
                    let id = Ident { name: self.peek().to_string(), span: self.span() };
                    self.at += 1;
                    id
                } else {
                    self.ident()?
                };
                let span = join(start, self.last_span());
                e = Expr { kind: ExprKind::Field { receiver: Box::new(e), name }, span };
            } else if self.is("[") {
                self.at += 1;
                let index = self.expr()?;
                self.need("]", "`]`")?;
                let span = join(start, self.last_span());
                e = Expr { kind: ExprKind::Index { receiver: Box::new(e), index: Box::new(index) }, span };
            } else if self.is("::") && self.peek_at(1) == "[" {
                self.at += 1;
                let type_args = self.type_args()?;
                if self.is("(") {
                    let args = self.args()?;
                    let span = join(start, self.last_span());
                    e = Expr { kind: ExprKind::Call { callee: Box::new(e), type_args, args }, span };
                } else {
                    let span = join(start, self.last_span());
                    e = Expr { kind: ExprKind::FnRef { callee: Box::new(e), type_args }, span };
                }
            } else {
                return Ok(e);
            }
        }
    }

    fn field_inits(&mut self) -> Parsed<Vec<FieldInit>> {
        self.need("{", "`{`")?;
        let mut fields = Vec::new();
        while !self.eat("}") {
            let name = self.ident()?;
            self.need(":", "`:`")?;
            let value = self.expr()?;
            fields.push(FieldInit { name, value });
            self.eat(",");
        }
        Ok(fields)
    }

    fn string(&mut self) -> Parsed<Expr> {
        let span = self.span();
        let raw = self.peek().to_string();
        self.at += 1;
        let body = raw[1..raw.len() - 1].to_string();
        if !body.contains("${") {
            return Ok(Expr { kind: ExprKind::StrLit(body), span });
        }
        let mut parts = Vec::new();
        let mut rest = body.as_str();
        let mut at = span.start + 1;
        while let Some(i) = rest.find("${") {
            parts.push(InterpStrPart::Text(rest[..i].to_string()));
            let close = i + rest[i..].find('}').expect("closed hole");
            let hole = &rest[i + 2..close];
            let mut p = Parser { words: words(hole, at + i as u32 + 2), at: 0 };
            parts.push(InterpStrPart::Expr(p.expr()?));
            at += close as u32 + 1;
            rest = &rest[close + 1..];
        }
        parts.push(InterpStrPart::Text(rest.to_string()));
        Ok(Expr { kind: ExprKind::InterpStr { parts }, span })
    }

    fn primary(&mut self) -> Parsed<Expr> {
        let start = self.span();
        if self.kind() == TokenKind::Str {
            return self.string();
        }
        if self.kind() == TokenKind::CStr {
            let t = self.peek().to_string();
            self.at += 1;
            return Ok(Expr { kind: ExprKind::CStrLit(t[2..t.len() - 1].to_string()), span: start });
        }
        if self.kind() == TokenKind::Int {
            let t: String = self.peek().chars().take_while(|c| c.is_ascii_digit()).collect();
            self.at += 1;
            return Ok(Expr { kind: ExprKind::IntLit(t.parse().expect("number"), None), span: start });
        }
        if self.kind() == TokenKind::Float {
            let t = self.peek().to_string();
            self.at += 1;
            return Ok(Expr { kind: ExprKind::FloatLit(t, None), span: start });
        }
        if self.is("true") || self.is("false") {
            let b = self.is("true");
            self.at += 1;
            return Ok(Expr { kind: ExprKind::BoolLit(b), span: start });
        }
        if self.is("if") {
            return self.if_expr();
        }
        if self.eat("match") {
            let scrutinee = self.expr()?;
            self.need("{", "`{`")?;
            let mut arms = Vec::new();
            while !self.eat("}") {
                let pattern = self.pattern()?;
                self.need("=>", "`=>`")?;
                let body = if self.is("return") {
                    let s = self.span();
                    let stmt = match self.stmt_without_semi()? {
                        Ok(x) => x,
                        Err(e) => return Ok(e),
                    };
                    let span = join(s, self.last_span());
                    Expr { kind: ExprKind::Block(Block { stmts: vec![stmt], tail: None, span }), span }
                } else {
                    self.expr()?
                };
                self.eat(",");
                arms.push(MatchArm { pattern, body });
            }
            let span = join(start, self.last_span());
            return Ok(Expr { kind: ExprKind::Match { scrutinee: Box::new(scrutinee), arms }, span });
        }
        if self.is("{") {
            if self.is_inferred_literal() {
                let fields = self.field_inits()?;
                let span = join(start, self.last_span());
                return Ok(Expr { kind: ExprKind::InferredStructLit { fields }, span });
            }
            let b = self.block()?;
            let span = b.span;
            return Ok(Expr { kind: ExprKind::Block(b), span });
        }
        if self.eat("(") {
            let first = self.expr()?;
            if self.eat(")") {
                return Ok(Expr { kind: first.kind, span: first.span });
            }
            let mut elements = vec![first];
            while self.eat(",") {
                if self.is(")") {
                    break;
                }
                elements.push(self.expr()?);
            }
            self.need(")", "`)`")?;
            let span = join(start, self.last_span());
            return Ok(Expr { kind: ExprKind::TupleLit { elements }, span });
        }
        if self.eat("[") {
            let mut elements = Vec::new();
            while !self.eat("]") {
                elements.push(self.expr()?);
                if self.eat(";") {
                    let len: u64 = self.peek().parse().expect("array length");
                    self.at += 1;
                    self.need("]", "`]`")?;
                    let fill = elements.pop().expect("fill");
                    let span = join(start, self.last_span());
                    return Ok(Expr { kind: ExprKind::ArrayFill { fill: Box::new(fill), len }, span });
                }
                self.eat(",");
            }
            let span = join(start, self.last_span());
            return Ok(Expr { kind: ExprKind::ArrayLit { elements }, span });
        }
        if self.eat("#") {
            let name = self.ident()?;
            let type_args = if self.eat("::") { self.type_args()? } else { Vec::new() };
            let args = self.args()?;
            let span = join(start, self.last_span());
            return Ok(Expr { kind: ExprKind::Intrinsic { name, type_args, args }, span });
        }
        if !self.is_word() {
            return self.fail("an expression");
        }
        let name = self.ident()?;
        let typed = upper(&name.name);
        if typed && self.is("{") {
            let fields = self.field_inits()?;
            let span = join(start, self.last_span());
            return Ok(Expr { kind: ExprKind::StructLit { name, fields }, span });
        }
        let indexed = self.peek_at(1).chars().all(|c| c.is_ascii_digit());
        if typed && self.is("[") && !indexed {
            let type_args = self.type_args()?;
            if self.is("{") {
                let fields = self.field_inits()?;
                let span = join(start, self.last_span());
                return Ok(Expr { kind: ExprKind::GenericStructLit { name, type_args, fields }, span });
            }
            self.need("::", "`::`")?;
            let variant = self.ident()?;
            let args = if self.is("(") { self.args()? } else { Vec::new() };
            let span = join(start, self.last_span());
            return Ok(Expr { kind: ExprKind::GenericEnumCall { enum_name: name, type_args, variant, args }, span });
        }
        if self.is("::") && self.peek_at(1) != "[" {
            let mut segments = vec![name];
            while self.is("::") && self.peek_at(1) != "[" {
                self.at += 1;
                segments.push(self.ident()?);
            }
            let span = join(start, self.last_span());
            return Ok(Expr { kind: ExprKind::Path { segments }, span });
        }
        Ok(Expr { kind: ExprKind::Ident(name.name), span: name.span })
    }

    /// `{ name: value, .. }` without a type in front of it.
    fn is_inferred_literal(&self) -> bool {
        let i = self.at + 1;
        i + 1 < self.words.len() && self.words[i].kind == TokenKind::Ident && self.words[i + 1].text == ":"
    }

    fn stmt_without_semi(&mut self) -> Parsed<Result<Stmt, Expr>> {
        let start = self.span();
        self.need("return", "`return`")?;
        let value = if self.is(",") || self.is("}") { None } else { Some(self.expr()?) };
        Ok(self.stmt(StmtKind::Return(value), start))
    }

    fn if_expr(&mut self) -> Parsed<Expr> {
        let start = self.need("if", "`if`")?;
        let cond = self.expr()?;
        let then = self.block()?;
        let else_branch = if self.eat("else") {
            if self.is("if") {
                Some(Box::new(self.if_expr()?))
            } else {
                let b = self.block()?;
                let span = b.span;
                Some(Box::new(Expr { kind: ExprKind::Block(b), span }))
            }
        } else {
            None
        };
        let span = join(start, self.last_span());
        Ok(Expr { kind: ExprKind::If { cond: Box::new(cond), then, else_branch }, span })
    }
}

fn parse(src: &str) -> Result<Program, ParseError> {
    Parser::new(src).program()
}

fn parse_prog(src: &str) -> Program {
    parse(src).expect("parse")
}

fn analyze_src(src: &str) -> String {
    analyze(&parse_prog(src)).dump()
}

fn check_src(src: &str) -> Vec<String> {
    let prog = parse_prog(src);
    let diags = check(&prog, "t.cplus", src);
    diags.into_iter().map(|d| d.code.0.to_string()).collect()
}

// ---- tests ----


const SCOPE_MOCK: &str = "struct Data { n: i32 }\n         impl Data { fn drop(ref this) { return; } }\n         struct Scope { c: i32 }\n         impl Scope {\n             #[keeps(this)]\n             fn lend(ref this, ref d: Data) { this.c = this.c + 1; }\n             fn drop(ref this) { return; }\n         }\n";

#[test]
fn scope_outliving_its_lent_data_is_rejected() {
    let codes = check_src(&format!(
        "{SCOPE_MOCK}\
             fn main() -> i32 {{\n                 var s: Scope = Scope {{ c: 0 }};\n                 {{ var d: Data = Data {{ n: 1 }}; s.lend(d); }}\n                 return 0;\n             }}"
    ));
    assert!(
        codes.iter().any(|c| c == "E0514"),
        "data must outlive the scope: {codes:?}"
    );
}

#[test]
fn writing_lent_data_is_rejected() {
    let codes = check_src(&format!(
        "{SCOPE_MOCK}\
             fn main() -> i32 {{\n                 var s: Scope = Scope {{ c: 0 }};\n                 var d: Data = Data {{ n: 1 }};\n                 s.lend(d);\n                 d.n = 5;\n                 s.c = 2;\n                 return 0;\n             }}"
    ));
    assert!(
        codes.iter().any(|c| c == "E0381"),
        "a write into borrowed data must be refused: {codes:?}"
    );
}

#[test]
fn lending_the_same_data_twice_is_rejected() {
    let codes = check_src(&format!(
        "{SCOPE_MOCK}\
             fn main() -> i32 {{\n                 var s: Scope = Scope {{ c: 0 }};\n                 var d: Data = Data {{ n: 1 }};\n                 s.lend(d);\n                 s.lend(d);\n                 return 0;\n             }}"
    ));
    assert!(
        codes.iter().any(|c| c == "E0381"),
        "two exclusive lends of one place must be refused: {codes:?}"
    );
}

#[test]
fn lending_two_different_places_is_fine() {
    let codes = check_src(&format!(
        "{SCOPE_MOCK}\
             fn main() -> i32 {{\n                 var s: Scope = Scope {{ c: 0 }};\n                 var a: Data = Data {{ n: 1 }};\n                 var b: Data = Data {{ n: 2 }};\n                 s.lend(a);\n                 s.lend(b);\n                 return 0;\n             }}"
    ));
    assert!(codes.is_empty(), "two locals, two workers: {codes:?}");
}

const COP: &str = "struct Cop { n: i32 }\n         struct CScope { c: i32 }\n         impl CScope {\n             #[keeps(this)]\n             fn lend(ref this, ref d: Cop) { this.c = this.c + 1; }\n             fn drop(ref this) { return; }\n         }\n         fn touch(ref d: Cop) { d.n = d.n + 1; return; }\n";

#[test]
fn lending_a_copy_place_twice_is_rejected() {
    let codes = check_src(&format!(
        "{COP}\
             fn main() -> i32 {{\n                 var s: CScope = CScope {{ c: 0 }};\n                 var d: Cop = Cop {{ n: 1 }};\n                 s.lend(d);\n                 s.lend(d);\n                 return 0;\n             }}"
    ));
    assert!(
        codes.iter().any(|c| c == "E0381"),
        "a Copy place is still a place: two exclusive lends must be refused; got {codes:?}"
    );
}

#[test]
fn writing_a_lent_copy_place_is_rejected() {
    let codes = check_src(&format!(
        "{COP}\
             fn main() -> i32 {{\n                 var s: CScope = CScope {{ c: 0 }};\n                 var d: Cop = Cop {{ n: 1 }};\n                 s.lend(d);\n                 d.n = 5;\n                 return 0;\n             }}"
    ));
    assert!(
        codes.iter().any(|c| c == "E0381"),
        "`ref` is by-pointer for every type, Copy included; got {codes:?}"
    );
}

#[test]
fn a_copy_place_dying_before_its_scope_is_rejected() {
    let codes = check_src(&format!(
        "{COP}\
             fn main() -> i32 {{\n                 var s: CScope = CScope {{ c: 0 }};\n                 {{ var d: Cop = Cop {{ n: 1 }}; s.lend(d); }}\n                 return 0;\n             }}"
    ));
    assert!(
        codes.iter().any(|c| c == "E0514"),
        "the worker holds the address of a dead stack slot; got {codes:?}"
    );
}

#[test]
fn reading_a_lent_place_is_rejected() {
    let codes = check_src(&format!(
        "{SCOPE_MOCK}\
             fn main() -> i32 {{\n                 var s: Scope = Scope {{ c: 0 }};\n                 var d: Data = Data {{ n: 1 }};\n                 s.lend(d);\n                 let v: i32 = d.n;\n                 return v;\n             }}"
    ));
    assert!(
        codes.iter().any(|c| c == "E0383" || c == "E0374"),
        "a lent place cannot be read while a worker may be writing it; got {codes:?}"
    );
}

#[test]
fn a_plain_ref_call_on_a_lent_place_is_rejected() {
    let codes = check_src(&format!(
        "{COP}\
             fn main() -> i32 {{\n                 var s: CScope = CScope {{ c: 0 }};\n                 var d: Cop = Cop {{ n: 1 }};\n                 s.lend(d);\n                 touch(d);\n                 return 0;\n             }}"
    ));
    assert!(
        codes.iter().any(|c| c == "E0381"),
        "the parent may not take the lent place exclusively too; got {codes:?}"
    );
}

#[test]
fn a_non_ref_keeps_position_still_admits_reads() {
    let src = "struct Holder { s: str }\n\
             impl Holder {\n\
                 #[keeps(this)]\n\
                 fn set(ref this, k: str) { this.s = k; }\n\
                 fn drop(ref this) { return; }\n\
             }\n\
             struct Owner { n: i32 }\n\
             impl Owner { fn drop(ref this) { return; } }\n\
             fn view(o: Owner) -> str { return \"x\"; }\n\
             fn main() -> i32 {\n\
                 var o: Owner = Owner { n: 1 };\n\
                 var h: Holder = Holder { s: \"\" };\n\
                 h.set(view(o));\n\
                 let v: i32 = o.n;\n\
                 return v;\n\
             }";
    let codes = check_src(src);
    assert!(
        !codes.iter().any(|c| c == "E0383"),
        "a stored view is a SHARED loan; reads of the owner stay legal; got {codes:?}"
    );
}

#[test]
fn place_canonical_root_only() {
    assert_eq!(Place::root("buf").canonical(), "buf");
}

#[test]
fn place_canonical_with_projections() {
    let p = Place {
        root: "buf".into(),
        projections: vec![
            Projection::Field("payload".into()),
            Projection::Index(3),
            Projection::AnyIndex,
        ],
    };
    assert_eq!(p.canonical(), "buf.payload[3][*]");
}

#[test]
fn merge_owned_owned_is_owned() {
    assert_eq!(
        PlaceState::Owned.merge(&PlaceState::Owned),
        PlaceState::Owned
    );
}

#[test]
fn merge_owned_moved_is_maybe_partial() {
    assert_eq!(
        PlaceState::Owned.merge(&PlaceState::Moved),
        PlaceState::MaybePartial
    );
    assert_eq!(
        PlaceState::Moved.merge(&PlaceState::Owned),
        PlaceState::MaybePartial
    );
}

#[test]
fn merge_borrowed_shared_takes_max() {
    assert_eq!(
        PlaceState::BorrowedShared(2).merge(&PlaceState::BorrowedShared(5)),
        PlaceState::BorrowedShared(5)
    );
}

#[test]
fn empty_function_has_entry_and_exit_only() {
    let dump = analyze_src("fn f() { return; }");
    assert_eq!(dump, "fn f:\n  entry: {}\n  after stmt 0: {}\n  exit: {}\n");
}

#[test]
fn parameters_appear_in_entry_state() {
    let dump = analyze_src("fn f(a: i32, b: i32) { return; }");
    assert!(dump.contains("entry: {a=Owned, b=Owned}"), "got:\n{dump}");
}

#[test]
fn let_binding_appears_after_its_statement() {
    let src = "fn f() {\n  let x: i32 = 1;\n  return;\n}";
    let dump = analyze_src(src);
    assert!(dump.contains("entry: {}"));
    assert!(dump.contains("after stmt 0: {x=Owned}"));
    assert!(dump.contains("exit: {x=Owned}"));
}

#[test]
fn method_appears_as_type_dot_method_in_analysis() {
    let src = "\
struct P { x: i32 }
impl P { fn read(this) -> i32 { return this.x; } }
fn main() -> i32 { return 0; }";
    let dump = analyze_src(src);
    assert!(dump.contains("fn P.read:"), "got:\n{dump}");
    assert!(dump.contains("entry: {self=Owned}"), "got:\n{dump}");
}

#[test]
fn for_range_loop_var_scoped_to_body() {
    let src = "\
fn f() {
  for i in 0..3 {
    let _x: i32 = i;
  }
  return;
}";
    let dump = analyze_src(src);

    assert!(dump.contains("after stmt 0: {}"), "got:\n{dump}");
    assert!(dump.contains("exit: {}"), "got:\n{dump}");

}

#[test]
fn dump_is_deterministic_across_runs() {
    let src = "fn f(a: i32, b: i32) { let c: i32 = a; return; }";
    let d1 = analyze_src(src);
    let d2 = analyze_src(src);
    assert_eq!(d1, d2);
}

#[test]
fn copy_oracle_marks_drop_struct_non_copy() {
    let src = "\
struct B { x: i32 }
impl B { fn drop(ref this) { return; } }";
    let prog = parse_prog(src);
    let oracle = CopyOracle::build(&prog);
    let t = Type {
        kind: TypeKind::Path("B".into()),
        span: Span::new(0, 0),
    };
    assert!(oracle.definitely_non_copy(&t), "B should be non-Copy");
    assert!(!oracle.is_copy(&t));
}

#[test]
fn copy_oracle_marks_plain_struct_copy() {
    let src = "struct P { x: i32, y: i32 }";
    let prog = parse_prog(src);
    let oracle = CopyOracle::build(&prog);
    let t = Type {
        kind: TypeKind::Path("P".into()),
        span: Span::new(0, 0),
    };
    assert!(oracle.is_copy(&t));
    assert!(
        !oracle.definitely_non_copy(&t),
        "Copy struct should not be definitely_non_copy"
    );
}

#[test]
fn copy_oracle_handles_unknown_type_as_not_definitely_non_copy() {
    let src = "fn f() { return; }";
    let prog = parse_prog(src);
    let oracle = CopyOracle::build(&prog);
    let t = Type {
        kind: TypeKind::Path("Mystery".into()),
        span: Span::new(0, 0),
    };
    assert!(
        !oracle.definitely_non_copy(&t),
        "Unknown types should not fire definitely_non_copy"
    );
}

#[test]
fn copy_oracle_propagates_non_copy_through_struct_field() {
    let src = "\
struct B { x: i32 }
impl B { fn drop(ref this) { return; } }
struct Outer { b: B, n: i32 }";
    let prog = parse_prog(src);
    let oracle = CopyOracle::build(&prog);
    let outer = Type {
        kind: TypeKind::Path("Outer".into()),
        span: Span::new(0, 0),
    };
    assert!(
        oracle.definitely_non_copy(&outer),
        "Outer should be non-Copy because it contains B"
    );
}

#[test]
fn copy_oracle_primitives_are_copy() {
    let prog = parse_prog("fn f() { return; }");
    let oracle = CopyOracle::build(&prog);
    for name in ["i32", "u64", "f64", "bool", "usize"] {
        let t = Type {
            kind: TypeKind::Path(name.into()),
            span: Span::new(0, 0),
        };
        assert!(oracle.is_copy(&t), "{name} should be Copy");
        assert!(
            !oracle.definitely_non_copy(&t),
            "{name} should not be definitely_non_copy"
        );
    }
}

#[test]
fn move_of_copy_binding_does_not_transition_state() {
    let src = "\
fn sink(take x: i32) { return; }
fn caller() {
  let y: i32 = 7;
  sink(y);
  return;
}";
    let dump = analyze_src(src);
    assert!(dump.contains("exit: {y=Owned}"), "got:\n{dump}");
}

#[test]
fn move_of_non_copy_binding_transitions_to_moved() {
    let src = "\
struct B { x: i32 }
impl B { fn drop(ref this) { return; } }
fn sink(take b: B) { return; }
fn caller() {
  let y: B = B { x: 1 };
  sink(y);
  return;
}";
    let dump = analyze_src(src);

    let exit_line = dump
        .lines()
        .find(|l| l.starts_with("fn caller:") || l.contains("exit:"))
        .unwrap_or("");
    assert!(dump.contains("y=Moved"), "y should be Moved; got:\n{dump}");
    let _ = exit_line;
}

#[test]
fn e0370_fires_on_move_and_read_of_same_non_copy_binding() {
    let src = "\
struct B { x: i32 }
impl B { fn drop(ref this) { return; } }
fn drain(take b: B, n: i32) { return; }
fn peek(b: B) -> i32 { return b.x; }
fn caller() {
  let y: B = B { x: 1 };
  drain(y, peek(y));
  return;
}";
    let codes = check_src(src);
    assert!(
        codes.iter().any(|c| c == "E0370"),
        "expected E0370 in {codes:?}"
    );
}

#[test]
fn e0370_does_not_fire_on_copy_binding() {
    let src = "\
fn drain(take x: i32, n: i32) { return; }
fn peek(x: i32) -> i32 { return x; }
fn caller() {
  let y: i32 = 1;
  drain(y, peek(y));
  return;
}";
    let codes = check_src(src);
    assert!(
        !codes.iter().any(|c| c == "E0370"),
        "E0370 should not fire on Copy bindings; got {codes:?}"
    );
}

#[test]
fn take_noncopy_struct_arg_while_borrowed_is_move_e0372() {
    let src = "\
struct B { x: i32 }
impl B { fn drop(ref this) { return; } }
fn cursor(ref b: B) -> B { return b; }
fn take(take b: B) -> i32 { return 0; }
fn caller() {
  let v: B = B { x: 1 };
  let cur: B = cursor(v);
  let n: i32 = take(v);
  let m: i32 = cur.x;
  return;
}";
    let codes = check_src(src);
    assert!(
        codes.iter().any(|c| c == "E0372"),
        "take non-Copy struct arg while borrowed should move (E0372), got {codes:?}"
    );
}

#[test]
fn generic_take_param_while_borrowed_is_move_e0372() {
    let src = "\
struct B { x: i32 }
impl B { fn drop(ref this) { return; } }
fn cursor(ref b: B) -> B { return b; }
fn gsink[T](take v: T) -> i32 { return 0; }
fn caller() {
  let v: B = B { x: 1 };
  let cur: B = cursor(v);
  let n: i32 = gsink::[B](v);
  let m: i32 = cur.x;
  return;
}";
    let codes = check_src(src);
    assert!(
        codes.iter().any(|c| c == "E0372"),
        "a `take` param typed by the callee's own generic param still moves; got {codes:?}"
    );
}

#[test]
fn generic_take_param_of_a_copy_argument_is_not_a_move() {
    let src = "\
fn gsink[T](take v: T) -> i32 { return 0; }
fn caller() -> i32 {
  let y: i32 = 1;
  let a: i32 = gsink::[i32](y);
  let b: i32 = gsink::[i32](y);
  return y;
}";
    let codes = check_src(src);
    assert!(
        !codes
            .iter()
            .any(|c| c == "E0372" || c == "E0335" || c == "E0370"),
        "a Copy instantiation consumes nothing; got {codes:?}"
    );
}

#[test]
fn take_noncopy_enum_arg_while_borrowed_is_move_e0372() {
    let src = "\
struct Leaf { tag: i32 }
impl Leaf { fn drop(ref this) { return; } }
enum E { A(Leaf), B }
fn cursor(ref e: E) -> E { return e; }
fn take(take e: E) -> i32 { return 0; }
fn peek(e: E) -> i32 { return 0; }
fn caller() {
  let v: E = E::B;
  let cur: E = cursor(v);
  let n: i32 = take(v);
  let m: i32 = peek(cur);
  return;
}";
    let codes = check_src(src);
    assert!(
        codes.iter().any(|c| c == "E0372"),
        "take non-Copy enum arg while borrowed should move (E0372), got {codes:?}"
    );
}

#[test]
fn e0370_does_not_fire_when_other_arg_does_not_read_binding() {
    let src = "\
struct B { x: i32 }
impl B { fn drop(ref this) { return; } }
fn drain(take b: B, n: i32) { return; }
fn caller() {
  let y: B = B { x: 1 };
  let z: i32 = 42;
  drain(y, z);
  return;
}";
    let codes = check_src(src);
    assert!(
        !codes.iter().any(|c| c == "E0370"),
        "E0370 should not fire when sibling arg doesn't read the moved binding; got {codes:?}"
    );
}

#[test]
fn e0370_does_not_fire_on_unknown_binding_type() {
    let src = "\
struct B { x: i32 }
impl B { fn drop(ref this) { return; } }
fn drain(take b: B, n: i32) { return; }
fn peek(b: B) -> i32 { return b.x; }
fn caller() {
  let y = B { x: 1 };
  drain(y, peek(y));
  return;
}";
    let codes = check_src(src);
    assert!(
        codes.iter().any(|c| c == "E0370"),
        "inferred binding type must enable E0370; got {codes:?}"
    );
    let src = "\
struct B { x: i32 }
impl B { fn drop(ref this) { return; } }
fn drain(take b: B, n: i32) { return; }
fn peek(b: B) -> i32 { return b.x; }
fn caller(make: fn() -> B) {
  let y = make();
  drain(y, peek(y));
  return;
}";
    let codes = check_src(src);
    assert!(
        !codes.iter().any(|c| c == "E0370"),
        "E0370 must stay silent on a genuinely unresolvable binding; got {codes:?}"
    );
}

#[test]
fn clean_function_produces_no_diagnostics() {
    let src = "\
fn add(a: i32, b: i32) -> i32 { return a + b; }
fn main() -> i32 { return add(2, 3); }";
    let codes = check_src(src);
    assert!(codes.is_empty(), "expected no diagnostics; got {codes:?}");
}

#[test]
fn asymmetric_if_move_produces_maybe_partial() {
    let src = "\
struct B { x: i32 }
impl B { fn drop(ref this) { return; } }
fn sink(take b: B) { return; }
fn caller(c: bool) {
  let y: B = B { x: 1 };
  if c {
    sink(y);
  }
  return;
}";
    let dump = analyze_src(src);

    let line = dump
        .lines()
        .find(|l| l.contains("after stmt 1:"))
        .unwrap_or_else(|| panic!("no after stmt 1 in:\n{dump}"));
    assert!(
        line.contains("y=MaybePartial"),
        "expected y=MaybePartial in: {line}"
    );
}

#[test]
fn symmetric_if_move_in_both_branches_is_moved() {
    let src = "\
struct B { x: i32 }
impl B { fn drop(ref this) { return; } }
fn sink(take b: B) { return; }
fn caller(c: bool) {
  let y: B = B { x: 1 };
  if c {
    sink(y);
  } else {
    sink(y);
  }
  return;
}";
    let dump = analyze_src(src);
    let line = dump
        .lines()
        .find(|l| l.contains("after stmt 1:"))
        .unwrap_or_else(|| panic!("no after stmt 1 in:\n{dump}"));
    assert!(line.contains("y=Moved"), "expected y=Moved in: {line}");
}

#[test]
fn diverging_branch_excluded_from_merge() {
    let src = "\
struct B { x: i32 }
impl B { fn drop(ref this) { return; } }
fn sink(take b: B) { return; }
fn caller(c: bool) -> i32 {
  let y: B = B { x: 1 };
  if c {
    sink(y);
    return 1;
  }
  return 0;
}";
    let dump = analyze_src(src);

    let line = dump
        .lines()
        .find(|l| l.contains("after stmt 1:"))
        .unwrap_or_else(|| panic!("no after stmt 1 in:\n{dump}"));
    assert!(line.contains("y=Owned"), "expected y=Owned in: {line}");
}

#[test]
fn branch_local_let_does_not_leak() {
    let src = "\
fn caller(c: bool) {
  if c {
    let inner: i32 = 1;
  } else {
    let other: i32 = 2;
  }
  return;
}";
    let dump = analyze_src(src);
    let line = dump
        .lines()
        .find(|l| l.contains("after stmt 0:"))
        .unwrap_or_else(|| panic!("no after stmt 0 in:\n{dump}"));
    assert!(
        !line.contains("inner"),
        "branch-local `inner` should not leak: {line}"
    );
    assert!(
        !line.contains("other"),
        "branch-local `other` should not leak: {line}"
    );
}

#[test]
fn loop_body_move_produces_maybe_partial() {
    let src = "\
struct B { x: i32 }
impl B { fn drop(ref this) { return; } }
fn sink(take b: B) { return; }
fn caller(c: bool) {
  let y: B = B { x: 1 };
  while c {
    sink(y);
  }
  return;
}";
    let dump = analyze_src(src);
    let line = dump
        .lines()
        .find(|l| l.contains("after stmt 1:"))
        .unwrap_or_else(|| panic!("no after stmt 1 in:\n{dump}"));
    assert!(
        line.contains("y=MaybePartial"),
        "expected y=MaybePartial in: {line}"
    );
}

#[test]
fn e0371_does_not_fire_on_copy_binding_after_asymmetric_branch() {
    let src = "\
fn sink(take x: i32) { return; }
fn caller(c: bool) {
  let y: i32 = 1;
  if c { sink(y); }
  let z: i32 = y;
  let _ignore: i32 = z;
  return;
}";
    let codes = check_src(src);
    assert!(
        !codes.iter().any(|c| c == "E0371"),
        "E0371 should not fire on Copy bindings; got {codes:?}"
    );
}

#[test]
fn diverging_match_arms_excluded() {
    let src = "\
enum Color { Red, Green, Blue }
fn caller(c: Color) -> i32 {
  match c {
    Color::Red => { return 1; },
    Color::Green => { return 2; },
    Color::Blue => { return 3; },
  }
  return 0;
}";

    let codes = check_src(src);
    assert!(!codes.iter().any(|c| c == "E0371"), "got {codes:?}");
}

#[test]
fn e1_fires_on_single_param_passthrough() {
    let src = "\
struct B { x: i32 }
impl B { fn drop(ref this) { return; } }
fn passthrough(b: B) -> B { return b; }";
    let prog = parse_prog(src);
    assert_eq!(
        return_borrow_source(&prog, "passthrough"),
        Some(ReturnBorrowSource::Param(0))
    );
}

#[test]
fn e1_fires_on_return_of_field_access_rooted_at_param() {
    let src = "\
struct Inner { x: i32 }
impl Inner { fn drop(ref this) { return; } }
struct Outer { inner: Inner }
impl Outer { fn drop(ref this) { return; } }
fn pull(o: Outer) -> Inner { return o.inner; }";
    let prog = parse_prog(src);
    assert_eq!(
        return_borrow_source(&prog, "pull"),
        Some(ReturnBorrowSource::Param(0))
    );
}

#[test]
fn e1_does_not_fire_when_return_constructs_fresh_value() {
    let src = "\
struct B { x: i32 }
impl B { fn drop(ref this) { return; } }
fn make(b: B) -> B { return B { x: 0 }; }";
    let prog = parse_prog(src);
    assert_eq!(return_borrow_source(&prog, "make"), None);
}

#[test]
fn e1_does_not_fire_on_copy_param() {
    let src = "fn id(x: i32) -> i32 { return x; }";
    let prog = parse_prog(src);
    assert_eq!(return_borrow_source(&prog, "id"), None);
}

#[test]
fn e1_does_not_fire_with_move_marker() {
    let src = "\
struct B { x: i32 }
impl B { fn drop(ref this) { return; } }
fn consume(take b: B) -> B { return b; }";
    let prog = parse_prog(src);
    assert_eq!(return_borrow_source(&prog, "consume"), None);
}

#[test]
fn e_view_fn_ties_str_return_to_non_copy_borrow_params() {
    let src = "\
struct B { x: i32 }
impl B { fn drop(ref this) { return; } }
fn head(b: B) -> str { return \"h\"; }
fn fmt(b: B, n: i32) -> str { return \"f\"; }
fn pick(a: B, b: B) -> str { return \"p\"; }
fn lit(n: i32) -> str { return \"l\"; }
fn eat(take b: B) -> str { return \"e\"; }";
    let prog = parse_prog(src);
    assert_eq!(
        return_borrow_source_with_flavor(&prog, "head"),
        Some((ReturnBorrowSource::Param(0), BorrowFlavor::Shared))
    );
    assert_eq!(
        return_borrow_source_with_flavor(&prog, "fmt"),
        Some((ReturnBorrowSource::Param(0), BorrowFlavor::Shared))
    );
    assert_eq!(
        return_borrow_source(&prog, "pick"),
        Some(ReturnBorrowSource::MultiParam(vec![0, 1]))
    );
    assert_eq!(return_borrow_source(&prog, "lit"), None);
    assert_eq!(return_borrow_source(&prog, "eat"), None);
}

#[test]
fn e1_mut_fires_on_mut_marker_with_exclusive_flavor() {
    let src = "\
struct B { x: i32 }
impl B { fn drop(ref this) { return; } }
fn through(ref b: B) -> B { return b; }";
    let prog = parse_prog(src);
    assert_eq!(
        return_borrow_source_with_flavor(&prog, "through"),
        Some((ReturnBorrowSource::Param(0), BorrowFlavor::Exclusive))
    );
}

#[test]
fn e1_does_not_fire_with_multiple_params() {
    let src = "\
struct B { x: i32 }
impl B { fn drop(ref this) { return; } }
fn pick(a: B, b: B) -> B { return a; }";
    let prog = parse_prog(src);
    assert_eq!(
        return_borrow_source(&prog, "pick"),
        Some(ReturnBorrowSource::MultiParam(vec![0])),
    );
}

#[test]
fn e1_does_not_fire_with_no_return_type() {
    let src = "\
struct B { x: i32 }
impl B { fn drop(ref this) { return; } }
fn noop(b: B) { return; }";
    let prog = parse_prog(src);
    assert_eq!(return_borrow_source(&prog, "noop"), None);
}

#[test]
fn e1_does_not_fire_when_some_path_doesnt_return_rooted() {
    let src = "\
struct B { x: i32 }
impl B { fn drop(ref this) { return; } }
fn maybe(b: B, c: bool) -> B {
  if c {
    return b;
  }
  return B { x: 0 };
}";
    let prog = parse_prog(src);

    assert_eq!(return_borrow_source(&prog, "maybe"), None);
}

#[test]
fn e1_does_not_fire_when_one_branch_doesnt_return_rooted_single_param() {
    let src = "\
struct B { x: i32 }
impl B { fn drop(ref this) { return; } }
fn weird(b: B) -> B {
  // A nested block expression that diverges-on-one-arm via match-of-a-field
  match b.x {
    _ => { return B { x: 0 }; },
  }
}";
    let prog = parse_prog(src);

    assert_eq!(return_borrow_source(&prog, "weird"), None);
}

#[test]
fn e2_fires_on_self_passthrough_method() {
    let src = "\
struct B { x: i32 }
impl B {
  fn drop(ref this) { return; }
  fn pass(this) -> B { return this; }
}";
    let prog = parse_prog(src);
    assert_eq!(
        method_return_borrow_source(&prog, "B", "pass"),
        Some(ReturnBorrowSource::SelfReceiver)
    );
}

#[test]
fn e2_fires_on_self_field_access() {
    let src = "\
struct Inner { x: i32 }
impl Inner { fn drop(ref this) { return; } }
struct Outer { inner: Inner }
impl Outer {
  fn drop(ref this) { return; }
  fn payload(this) -> Inner { return this.inner; }
}";
    let prog = parse_prog(src);
    assert_eq!(
        method_return_borrow_source(&prog, "Outer", "payload"),
        Some(ReturnBorrowSource::SelfReceiver)
    );
}

#[test]
fn e2_mut_fires_on_mut_self_with_exclusive_flavor() {
    let src = "\
struct B { x: i32 }
impl B {
  fn drop(ref this) { return; }
  fn pass(ref this) -> B { return this; }
}";
    let prog = parse_prog(src);
    assert_eq!(
        method_return_borrow_source_with_flavor(&prog, "B", "pass"),
        Some((ReturnBorrowSource::SelfReceiver, BorrowFlavor::Exclusive))
    );
}

#[test]
fn e2_does_not_fire_on_move_self() {
    let src = "\
struct B { x: i32 }
impl B {
  fn drop(ref this) { return; }
  fn pass(take this) -> B { return this; }
}";
    let prog = parse_prog(src);
    assert_eq!(method_return_borrow_source(&prog, "B", "pass"), None);
}

#[test]
fn e2_does_not_fire_on_copy_target() {
    let src = "\
struct P { x: i32, y: i32 }
impl P {
  fn dup(this) -> P { return this; }
}";
    let prog = parse_prog(src);
    assert_eq!(method_return_borrow_source(&prog, "P", "dup"), None);
}

#[test]
fn detection_does_not_emit_diagnostics_in_isolation() {
    let src = "\
struct B { x: i32 }
impl B {
  fn drop(ref this) { return; }
  fn pass(this) -> B { return this; }
}
fn passthrough(b: B) -> B { return b; }
fn main() -> i32 { return 0; }";
    let codes = check_src(src);
    assert!(codes.is_empty(), "nothing should be reported; got {codes:?}");
}

#[test]
fn e3_fires_on_longest_pattern() {
    let src = "\
struct B { x: i32 }
impl B { fn drop(ref this) { return; } }
fn longest(a: B, b: B) -> B {
  if a.x > b.x {
    return a;
  }
  return b;
}";
    let prog = parse_prog(src);
    assert_eq!(
        return_borrow_source(&prog, "longest"),
        Some(ReturnBorrowSource::MultiParam(vec![0, 1])),
    );
}

#[test]
fn e3_call_records_borrows_from_every_source() {
    let src = "\
struct B { x: i32 }
impl B { fn drop(ref this) { return; } }
fn longest(a: B, b: B) -> B {
  if a.x > b.x { return a; }
  return b;
}
fn caller() {
  let a: B = B { x: 1 };
  let b: B = B { x: 2 };
  let r: B = longest(a, b);
  let n: i32 = r.x;
  return;
}";
    let dump = analyze_src(src);
    let line = dump
        .lines()
        .find(|l| l.contains("after stmt 2:"))
        .unwrap_or_else(|| panic!("no after stmt 2 in:\n{dump}"));
    assert!(
        line.contains("a=BorrowedShared(1)"),
        "expected a=BorrowedShared(1); got: {line}"
    );
    assert!(
        line.contains("b=BorrowedShared(1)"),
        "expected b=BorrowedShared(1); got: {line}"
    );
}

#[test]
fn e3_fires_e0372_on_move_of_any_source() {
    let src = "\
struct B { x: i32 }
impl B { fn drop(ref this) { return; } }
fn longest(a: B, b: B) -> B {
  if a.x > b.x { return a; }
  return b;
}
fn drain(take b: B) { return; }
fn caller() {
  let a: B = B { x: 1 };
  let b: B = B { x: 2 };
  let r: B = longest(a, b);
  drain(a);
  let n: i32 = r.x;
  return;
}";
    let codes = check_src(src);
    assert!(
        codes.iter().any(|c| c == "E0372"),
        "expected E0372 on move of `a` while `r` borrows it; got {codes:?}"
    );
}

#[test]
fn e3_fires_e0372_on_move_of_other_source() {
    let src = "\
struct B { x: i32 }
impl B { fn drop(ref this) { return; } }
fn longest(a: B, b: B) -> B {
  if a.x > b.x { return a; }
  return b;
}
fn drain(take b: B) { return; }
fn caller() {
  let a: B = B { x: 1 };
  let b: B = B { x: 2 };
  let r: B = longest(a, b);
  drain(b);
  let n: i32 = r.x;
  return;
}";
    let codes = check_src(src);
    assert!(
        codes.iter().any(|c| c == "E0372"),
        "expected E0372 on move of `b` while `r` borrows it; got {codes:?}"
    );
}

#[test]
fn e3_does_not_fire_when_some_path_returns_fresh_value() {
    let src = "\
struct B { x: i32 }
impl B { fn drop(ref this) { return; } }
fn maybe(a: B, b: B) -> B {
  if a.x > b.x { return a; }
  return B { x: 0 };
}";
    let prog = parse_prog(src);
    assert_eq!(return_borrow_source(&prog, "maybe"), None);
}

#[test]
fn e3_does_not_fire_with_copy_param() {
    let src = "\
struct B { x: i32 }
impl B { fn drop(ref this) { return; } }
fn weird(a: B, n: i32) -> B { return a; }";
    let prog = parse_prog(src);
    assert_eq!(return_borrow_source(&prog, "weird"), None);
}

#[test]
fn e3_does_not_fire_with_move_param() {
    let src = "\
struct B { x: i32 }
impl B { fn drop(ref this) { return; } }
fn weird(take a: B, b: B) -> B { return a; }";
    let prog = parse_prog(src);
    assert_eq!(return_borrow_source(&prog, "weird"), None);
}

#[test]
fn e3_borrow_released_after_borrower_scope_exits() {
    let src = "\
struct B { x: i32 }
impl B { fn drop(ref this) { return; } }
fn longest(a: B, b: B) -> B {
  if a.x > b.x { return a; }
  return b;
}
fn drain(take b: B) { return; }
fn caller() {
  let a: B = B { x: 1 };
  let b: B = B { x: 2 };
  {
    let r: B = longest(a, b);
  }
  drain(a);
  return;
}";
    let codes = check_src(src);
    assert!(
        !codes.iter().any(|c| c == "E0372"),
        "E0372 should not fire after r's scope closes; got {codes:?}"
    );
}

#[test]
fn e1_call_records_borrow_in_state() {
    let src = "\
struct B { x: i32 }
impl B { fn drop(ref this) { return; } }
fn passthrough(b: B) -> B { return b; }
fn caller() {
  let x: B = B { x: 1 };
  let y: B = passthrough(x);
  let n: i32 = y.x;
  return;
}";
    let dump = analyze_src(src);

    let line = dump
        .lines()
        .find(|l| l.contains("after stmt 1:"))
        .unwrap_or_else(|| panic!("no after stmt 1 in:\n{dump}"));
    assert!(
        line.contains("x=BorrowedShared(1)"),
        "expected x=BorrowedShared(1); got: {line}"
    );
}

#[test]
fn e2_method_call_records_borrow_in_state() {
    let src = "\
struct B { x: i32 }
impl B {
  fn drop(ref this) { return; }
  fn pass(this) -> B { return this; }
}
fn caller() {
  let b: B = B { x: 1 };
  let r: B = b.pass();
  let n: i32 = r.x;
  return;
}";
    let dump = analyze_src(src);
    let line = dump
        .lines()
        .find(|l| l.contains("after stmt 1:"))
        .unwrap_or_else(|| panic!("no after stmt 1 in:\n{dump}"));
    assert!(
        line.contains("b=BorrowedShared(1)"),
        "expected b=BorrowedShared(1); got: {line}"
    );
}

#[test]
fn e0372_fires_on_move_while_e1_borrow_live() {
    let src = "\
struct B { x: i32 }
impl B { fn drop(ref this) { return; } }
fn passthrough(b: B) -> B { return b; }
fn drain(take b: B) { return; }
fn caller() {
  let x: B = B { x: 1 };
  let r: B = passthrough(x);
  drain(x);
  let n: i32 = r.x;
  return;
}";
    let codes = check_src(src);
    assert!(
        codes.iter().any(|c| c == "E0372"),
        "expected E0372; got {codes:?}"
    );
}

#[test]
fn e0372_does_not_fire_after_borrower_scope_exits() {
    let src = "\
struct B { x: i32 }
impl B { fn drop(ref this) { return; } }
fn passthrough(b: B) -> B { return b; }
fn drain(take b: B) { return; }
fn caller() {
  let x: B = B { x: 1 };
  {
    let r: B = passthrough(x);
  }
  drain(x);
  return;
}";
    let codes = check_src(src);
    assert!(
        !codes.iter().any(|c| c == "E0372"),
        "E0372 should not fire after borrower's scope exits; got {codes:?}"
    );
}

#[test]
fn scope_exit_under_live_borrow_fires_e0514() {
    let src = "\
struct B { x: i32 }
impl B {
  fn drop(ref this) { return; }
  fn view(this) -> str { return \"\"; }
}
fn caller() {
  var s: str = \"\";
  {
    let t: B = B { x: 1 };
    s = t.view();
  }
  return;
}";
    let codes = check_src(src);
    assert!(
        codes.iter().any(|c| c == "E0514"),
        "expected E0514 on owner scope exit under live borrow; got {codes:?}"
    );
}

#[test]
fn scope_exit_with_borrower_dying_together_no_e0514() {
    let src = "\
struct B { x: i32 }
impl B {
  fn drop(ref this) { return; }
  fn view(this) -> str { return \"\"; }
}
fn caller() {
  {
    let t: B = B { x: 1 };
    let s: str = t.view();
  }
  return;
}";
    let codes = check_src(src);
    assert!(
        !codes.iter().any(|c| c == "E0514"),
        "E0514 must not fire when owner and borrower die together; got {codes:?}"
    );
}

#[test]
fn scope_exit_outer_owner_inner_borrower_no_e0514() {
    let src = "\
struct B { x: i32 }
impl B {
  fn drop(ref this) { return; }
  fn view(this) -> str { return \"\"; }
}
fn caller() {
  let t: B = B { x: 1 };
  {
    let s: str = t.view();
  }
  return;
}";
    let codes = check_src(src);
    assert!(
        !codes.iter().any(|c| c == "E0514"),
        "E0514 must not fire when the owner outlives the borrower; got {codes:?}"
    );
}

#[test]
fn loop_body_owner_view_assigned_outward_fires_e0514() {
    let src = "\
struct B { x: i32 }
impl B {
  fn drop(ref this) { return; }
  fn view(this) -> str { return \"\"; }
}
fn caller(n: i32) {
  var s: str = \"\";
  var i: i32 = 0;
  while i < n {
    let t: B = B { x: 1 };
    s = t.view();
    i = i + 1;
  }
  return;
}";
    let codes = check_src(src);
    assert!(
        codes.iter().any(|c| c == "E0514"),
        "expected E0514 for loop-body owner viewed by outer binding; got {codes:?}"
    );
}

#[test]
fn transitive_wrapper_of_keeps_method_ties_e0514() {
    let src = "\
struct B { x: i32 }
impl B {
  fn drop(ref this) { return; }
  fn view(this) -> str { return \"\"; }
}
struct Holder { view: str }
impl Holder {
  #[keeps(this)]
  fn set(ref this, k: str) { this.view = k; return; }
  fn set_outer(ref this, k: str) { this.set(k); return; }
}
fn caller() {
  var h: Holder = Holder { view: \"\" };
  {
    let t: B = B { x: 1 };
    h.set_outer(t.view());
  }
  return;
}";
    let codes = check_src(src);
    assert!(
        codes.iter().any(|c| c == "E0514"),
        "expected E0514 through the undeclared wrapper; got {codes:?}"
    );
}

#[test]
fn field_path_receiver_keeps_tie_e0514() {
    let src = "\
struct B { x: i32 }
impl B {
  fn drop(ref this) { return; }
  fn view(this) -> str { return \"\"; }
}
struct Holder { view: str }
impl Holder {
  #[keeps(this)]
  fn set(ref this, k: str) { this.view = k; return; }
}
struct Panel { h: Holder }
fn caller() {
  var p: Panel = Panel { h: Holder { view: \"\" } };
  {
    let t: B = B { x: 1 };
    p.h.set(t.view());
  }
  return;
}";
    let codes = check_src(src);
    assert!(
        codes.iter().any(|c| c == "E0514"),
        "expected E0514 through the field-path receiver; got {codes:?}"
    );
}

#[test]
fn generic_keeps_ties_only_view_instantiations() {
    let src = "\
struct B { x: i32 }
impl B {
  fn drop(ref this) { return; }
  fn view(this) -> str { return \"\"; }
}
struct Store[T] { opaque p: *u8 }
impl Store[T] {
  #[keeps(this)]
  fn put(ref this, take item: T) { return; }
}
fn view_case() {
  var s: Store[str] = Store[str] { p: 0 as *u8 };
  {
    let t: B = B { x: 1 };
    s.put(t.view());
  }
  return;
}
fn copy_case() {
  var s: Store[i32] = Store[i32] { p: 0 as *u8 };
  {
    let t: B = B { x: 1 };
    s.put(t.x);
  }
  return;
}";
    let codes = check_src(src);
    assert!(
        codes.iter().any(|c| c == "E0514"),
        "Store[str] must tie and fire E0514; got {codes:?}"
    );
    assert_eq!(
        codes.iter().filter(|c| *c == "E0514").count(),
        1,
        "Store[i32] must NOT tie; got {codes:?}"
    );
}

#[test]
fn generic_with_unstored_param_is_not_a_carrier() {
    let src = "\
struct B { x: i32 }
impl B {
  fn drop(ref this) { return; }
  fn view(this) -> str { return \"\"; }
}
struct Payload { s: str }
struct Handle[T] { cb: fn(T, *u8), ctx: *u8 }
impl B {
  fn subscribe(ref this, cb: fn(Payload, *u8)) -> Handle[Payload] {
    return Handle[Payload] { cb: cb, ctx: 0 as *u8 };
  }
}
fn noop(p: Payload, c: *u8) { return; }
fn caller() {
  var b: B = B { x: 1 };
  let h: Handle[Payload] = b.subscribe(noop);
  let n: i32 = b.x;
  return;
}";
    let codes = check_src(src);
    assert!(
        !codes.iter().any(|c| c == "E0381" || c == "E0383"),
        "an unstored-param generic must not tie its producer; got {codes:?}"
    );
}

#[test]
fn wrapper_not_reaching_keeps_ties_nothing() {
    let src = "\
struct B { x: i32 }
impl B {
  fn drop(ref this) { return; }
  fn view(this) -> str { return \"\"; }
}
struct Holder { view: str, n: usize }
impl Holder {
  fn measure(ref this, k: str) { this.n = #str_len(k); return; }
}
fn caller() {
  var h: Holder = Holder { view: \"\", n: 0 as usize };
  {
    let t: B = B { x: 1 };
    h.measure(t.view());
  }
  return;
}";
    let codes = check_src(src);
    assert!(
        !codes.iter().any(|c| c == "E0514"),
        "a read-only method must not tie; got {codes:?}"
    );
}

#[test]
fn scope_exit_carrier_through_call_fires_e0514() {
    let src = "\
struct B { x: i32 }
impl B {
  fn drop(ref this) { return; }
  fn view(this) -> str { return \"\"; }
}
struct Data { key: str }
fn make(k: str) -> Data { return Data { key: k }; }
fn caller() {
  var d: Data = Data { key: \"\" };
  {
    let t: B = B { x: 1 };
    d = make(t.view());
  }
  return;
}";
    let codes = check_src(src);
    assert!(
        codes.iter().any(|c| c == "E0514"),
        "expected E0514 for carrier assigned outward over a dying owner; got {codes:?}"
    );
}

const ERASED_PRELUDE: &str = "\
struct Owner { x: i32 }
impl Owner {
  fn drop(ref this) { return; }
  fn view(this) -> str { return \"\"; }
}
struct Sink { key: str }
struct Bx[T] { _p: *T }
impl Bx[T] {
  fn into_raw(take this) -> *u8 { return this._p as *u8; }
}
fn bnew[T](take v: T) -> Bx[T] { return Bx[T] { _p: 0 as *T }; }
";

#[test]
fn erased_raw_return_carries_view_param_fires_e0514() {
    let src = format!(
        "{ERASED_PRELUDE}\
fn node_with(key: str) -> *u8 {{
  let d: Sink = Sink {{ key: key }};
  let b: Bx[Sink] = bnew::[Sink](d);
  return b.into_raw();
}}
fn caller() {{
  var held: *u8 = 0 as *u8;
  {{
    let a: Owner = Owner {{ x: 1 }};
    held = node_with(a.view());
  }}
  return;
}}"
    );
    let codes = check_src(&src);
    assert!(
        codes.iter().any(|c| c == "E0514"),
        "expected E0514: erased *u8 return still carries the view param; got {codes:?}"
    );
}

#[test]
fn erased_raw_return_through_match_payload_fires_e0514() {
    let src = format!(
        "{ERASED_PRELUDE}\
enum Opt[T] {{ Some(T), None }}
fn bnew2[T](take v: T) -> Opt[Bx[T]] {{ return Opt[Bx[T]]::None; }}
fn node_with(key: str) -> *u8 {{
  let d: Sink = Sink {{ key: key }};
  return match bnew2::[Sink](d) {{
    Opt[Bx[Sink]]::Some(b) => b.into_raw(),
    Opt[Bx[Sink]]::None => 0 as *u8,
  }};
}}
fn caller() {{
  var held: *u8 = 0 as *u8;
  {{
    let a: Owner = Owner {{ x: 1 }};
    held = node_with(a.view());
  }}
  return;
}}"
    );
    let codes = check_src(&src);
    assert!(
        codes.iter().any(|c| c == "E0514"),
        "expected E0514 through Option/match/into_raw erasure; got {codes:?}"
    );
}

#[test]
fn keeps_nothing_suppresses_erased_return_promotion() {
    let src = format!(
        "{ERASED_PRELUDE}\
#[keeps(nothing)]
fn node_with(key: str) -> *u8 {{
  let d: Sink = Sink {{ key: key }};
  let b: Bx[Sink] = bnew::[Sink](d);
  return b.into_raw();
}}
fn caller() {{
  var held: *u8 = 0 as *u8;
  {{
    let a: Owner = Owner {{ x: 1 }};
    held = node_with(a.view());
  }}
  return;
}}"
    );
    let codes = check_src(&src);
    assert!(
        !codes.iter().any(|c| c == "E0514"),
        "keeps(nothing) must suppress the promoted tie; got {codes:?}"
    );
}

#[test]
fn copying_callee_does_not_promote_erased_return() {
    let src = "\
struct Owner { x: i32 }
impl Owner {
  fn drop(ref this) { return; }
  fn view(this) -> str { return \"\"; }
}
fn scrub(k: str) -> *u8 { return 0 as *u8; }
fn wrap(k: str) -> *u8 { return scrub(k); }
fn caller() {
  var held: *u8 = 0 as *u8;
  {
    let a: Owner = Owner { x: 1 };
    held = wrap(a.view());
  }
  return;
}";
    let codes = check_src(src);
    assert!(
        !codes.iter().any(|c| c == "E0514"),
        "a copying callee must not tie its caller; got {codes:?}"
    );
}

#[test]
fn scalar_param_reaching_raw_return_is_not_promoted() {
    let src = "\
fn make(n: usize) -> *u8 { return n as *u8; }
fn caller() {
  var held: *u8 = 0 as *u8;
  {
    let x: usize = 5 as usize;
    held = make(x);
  }
  return;
}";
    let codes = check_src(src);
    assert!(
        !codes.iter().any(|c| c == "E0514"),
        "scalar params must not promote; got {codes:?}"
    );
}

#[test]
fn e0372_does_not_fire_on_copy_param() {
    let src = "\
fn passthrough(b: i32) -> i32 { return b; }
fn drain(take b: i32) { return; }
fn caller() {
  let x: i32 = 1;
  let r: i32 = passthrough(x);
  drain(x);
  return;
}";
    let codes = check_src(src);
    assert!(
        !codes.iter().any(|c| c == "E0372"),
        "E0372 should not fire on Copy params; got {codes:?}"
    );
}

#[test]
fn moving_borrower_releases_borrow() {
    let src = "\
struct B { x: i32 }
impl B { fn drop(ref this) { return; } }
fn passthrough(b: B) -> B { return b; }
fn drain_b(take b: B) { return; }
fn caller() {
  let x: B = B { x: 1 };
  let r: B = passthrough(x);
  drain_b(r);
  drain_b(x);
  return;
}";
    let codes = check_src(src);

    assert!(
        !codes.iter().any(|c| c == "E0372"),
        "moving the borrower should release the borrow; got {codes:?}"
    );
}

#[test]
fn diagnostic_carries_machine_applicable_suggestion() {
    let src = "\
struct B { x: i32 }
impl B { fn drop(ref this) { return; } }
fn drain(take b: B, n: i32) { return; }
fn peek(b: B) -> i32 { return b.x; }
fn caller() {
  let y: B = B { x: 1 };
  drain(y, peek(y));
  return;
}";
    let prog = parse_prog(src);
    let diags = check(&prog, "t.cplus", src);
    let e0370 = diags
        .iter()
        .find(|d| d.code.0 == "E0370")
        .expect("should have E0370");
    assert!(
        !e0370.suggestions.is_empty(),
        "E0370 should carry a suggestion"
    );
}

#[test]
fn e0380_fires_on_two_mut_borrows_of_same_non_copy_binding() {
    let src = "\
struct B { x: i32 }
impl B { fn drop(ref this) { return; } }
fn modify_both(ref a: B, ref b: B) { return; }
fn caller() {
  let y: B = B { x: 1 };
  modify_both(y, y);
  return;
}";
    let codes = check_src(src);
    assert!(
        codes.iter().any(|c| c == "E0380"),
        "expected E0380 in {codes:?}"
    );

    let count = codes.iter().filter(|c| *c == "E0380").count();
    assert_eq!(
        count, 1,
        "expected exactly one E0380, got {count}: {codes:?}"
    );
}

#[test]
fn e0380_fires_through_fn_pointer_ref_slots() {
    let src = "\
struct B { x: i32 }
impl B { fn drop(ref this) { return; } }
fn modify_both(ref a: B, ref b: B) { return; }
fn caller() {
  let f: fn(ref B, ref B) = modify_both;
  var y: B = B { x: 1 };
  f(y, y);
  return;
}";
    let codes = check_src(src);
    assert!(
        codes.iter().any(|c| c == "E0380"),
        "expected E0380 through fn-pointer ref slots in {codes:?}"
    );
}

#[test]
fn e0381_fires_through_fn_pointer_ref_plus_shared() {
    let src = "\
struct B { x: i32 }
impl B { fn drop(ref this) { return; } }
fn mix(ref a: B, b: B) { return; }
fn caller() {
  let f: fn(ref B, B) = mix;
  var y: B = B { x: 1 };
  f(y, y);
  return;
}";
    let codes = check_src(src);
    assert!(
        codes.iter().any(|c| c == "E0381"),
        "expected E0381 through fn-pointer ref+shared slots in {codes:?}"
    );
}

#[test]
fn e0380_fires_on_two_mut_copy_args() {
    let src = "\
fn modify_both(ref a: i32, ref b: i32) { return; }
fn caller() {
  let y: i32 = 1;
  modify_both(y, y);
  return;
}";
    let codes = check_src(src);
    assert!(
        codes.iter().any(|c| c == "E0380"),
        "`ref` is by-pointer for every type; got {codes:?}"
    );
}

#[test]
fn take_of_a_copy_arg_still_carries_no_claim() {
    let src = "\
fn consume_and_read(take a: i32, b: i32) { return; }
fn caller() {
  let y: i32 = 1;
  consume_and_read(y, y);
  return;
}";
    let codes = check_src(src);
    assert!(
        codes.is_empty(),
        "a Copy `take` is a copy, not a move; got {codes:?}"
    );
}

#[test]
fn e0380_does_not_fire_on_different_bindings() {
    let src = "\
struct B { x: i32 }
impl B { fn drop(ref this) { return; } }
fn modify_both(ref a: B, ref b: B) { return; }
fn caller() {
  let y: B = B { x: 1 };
  let z: B = B { x: 2 };
  modify_both(y, z);
  return;
}";
    let codes = check_src(src);
    assert!(
        !codes.iter().any(|c| c == "E0380"),
        "E0380 should not fire on distinct bindings; got {codes:?}"
    );
}

#[test]
fn e0381_fires_on_mut_arg_with_sibling_read() {
    let src = "\
struct B { x: i32 }
impl B { fn drop(ref this) { return; } }
fn write_thing(ref a: B, n: i32) { return; }
fn peek(b: B) -> i32 { return b.x; }
fn caller() {
  let y: B = B { x: 1 };
  write_thing(y, peek(y));
  return;
}";
    let codes = check_src(src);
    assert!(
        codes.iter().any(|c| c == "E0381"),
        "expected E0381 in {codes:?}"
    );
}

#[test]
fn e0381_fires_on_copy_binding() {
    let src = "\
fn write_thing(ref a: i32, n: i32) { return; }
fn peek(x: i32) -> i32 { return x; }
fn caller() {
  let y: i32 = 1;
  write_thing(y, peek(y));
  return;
}";
    let codes = check_src(src);
    assert!(
        codes.iter().any(|c| c == "E0381"),
        "an exclusive Copy slot conflicts with a sibling read; got {codes:?}"
    );
}

#[test]
fn e0382_fires_on_mut_arg_with_sibling_move() {
    let src = "\
struct B { x: i32 }
impl B { fn drop(ref this) { return; } }
fn write_and_take(ref a: B, take b: B) { return; }
fn caller() {
  let y: B = B { x: 1 };
  write_and_take(y, y);
  return;
}";
    let codes = check_src(src);
    assert!(
        codes.iter().any(|c| c == "E0382"),
        "expected E0382 in {codes:?}"
    );
}

#[test]
fn e0382_does_not_fire_when_other_arg_does_not_name_binding() {
    let src = "\
struct B { x: i32 }
impl B { fn drop(ref this) { return; } }
fn modify(ref a: B, take b: B) { return; }
fn caller() {
  let y: B = B { x: 1 };
  let z: B = B { x: 2 };
  modify(y, z);
  return;
}";
    let codes = check_src(src);
    assert!(
        !codes.iter().any(|c| c == "E0382"),
        "E0382 should not fire on distinct bindings; got {codes:?}"
    );
}

#[test]
fn e0382_suppresses_e0370_for_same_pair() {
    let src = "\
struct B { x: i32 }
impl B { fn drop(ref this) { return; } }
fn write_and_take(ref a: B, take b: B) { return; }
fn caller() {
  let y: B = B { x: 1 };
  write_and_take(y, y);
  return;
}";
    let codes = check_src(src);
    let e0370_count = codes.iter().filter(|c| *c == "E0370").count();
    let e0382_count = codes.iter().filter(|c| *c == "E0382").count();
    assert_eq!(
        e0370_count, 0,
        "E0370 should be suppressed when E0382 fires; got {codes:?}"
    );
    assert_eq!(e0382_count, 1, "expected exactly one E0382; got {codes:?}");
}

#[test]
fn e0380_e0381_e0382_carry_suggestions() {
    for (label, src) in &[
        (
            "E0380",
            "\
struct B { x: i32 }
impl B { fn drop(ref this) { return; } }
fn f(ref a: B, ref b: B) { return; }
fn c() { let y: B = B { x: 1 }; f(y, y); return; }",
        ),
        (
            "E0381",
            "\
struct B { x: i32 }
impl B { fn drop(ref this) { return; } }
fn f(ref a: B, n: i32) { return; }
fn p(b: B) -> i32 { return b.x; }
fn c() { let y: B = B { x: 1 }; f(y, p(y)); return; }",
        ),
        (
            "E0382",
            "\
struct B { x: i32 }
impl B { fn drop(ref this) { return; } }
fn f(ref a: B, take b: B) { return; }
fn c() { let y: B = B { x: 1 }; f(y, y); return; }",
        ),
    ] {
        let prog = parse_prog(src);
        let diags = check(&prog, "t.cplus", src);
        let d = diags
            .iter()
            .find(|d| d.code.0 == *label)
            .unwrap_or_else(|| {
                panic!(
                    "expected {label}; got {:?}",
                    diags.iter().map(|d| d.code.0).collect::<Vec<_>>()
                )
            });
        assert!(
            !d.suggestions.is_empty(),
            "{label} should carry a suggestion"
        );
    }
}

#[test]
fn borrowed_exclusive_state_in_merge() {
    let a = PlaceState::BorrowedExclusive("h".to_string());
    let b = PlaceState::BorrowedExclusive("h".to_string());
    assert_eq!(a.merge(&b), PlaceState::BorrowedExclusive("h".to_string()));
}

#[test]
fn borrowed_exclusive_different_borrowers_merge_to_maybe_partial() {
    let a = PlaceState::BorrowedExclusive("h1".to_string());
    let b = PlaceState::BorrowedExclusive("h2".to_string());
    assert_eq!(a.merge(&b), PlaceState::MaybePartial);
}

#[test]
fn borrowed_exclusive_vs_owned_merges_to_maybe_partial() {
    let a = PlaceState::BorrowedExclusive("h".to_string());
    let b = PlaceState::Owned;
    assert_eq!(a.merge(&b), PlaceState::MaybePartial);

    assert_eq!(b.merge(&a), PlaceState::MaybePartial);
}

#[test]
fn borrowed_exclusive_vs_shared_merges_to_maybe_partial() {
    let a = PlaceState::BorrowedExclusive("h".to_string());
    let b = PlaceState::BorrowedShared(2);
    assert_eq!(a.merge(&b), PlaceState::MaybePartial);
    assert_eq!(b.merge(&a), PlaceState::MaybePartial);
}

#[test]
fn fmt_state_includes_borrowed_exclusive() {
    assert_eq!(
        fmt_state(&PlaceState::BorrowedExclusive("h".to_string())),
        "BorrowedExclusive(h)"
    );
}

#[test]
fn e1_mut_call_records_exclusive_borrow_in_state() {
    let src = "\
struct B { x: i32 }
impl B { fn drop(ref this) { return; } }
fn cursor(ref b: B) -> B { return b; }
fn caller() {
  let v: B = B { x: 1 };
  let cur: B = cursor(v);
  let m: i32 = cur.x;
  return;
}";
    let dump = analyze_src(src);

    assert!(
        dump.contains("v=BorrowedExclusive(cur)"),
        "expected exclusive-borrow state on v; got:\n{dump}"
    );
}

#[test]
fn e2_mut_method_call_records_exclusive_borrow_in_state() {
    let src = "\
struct B { x: i32 }
impl B {
  fn drop(ref this) { return; }
  fn cursor(ref this) -> B { return this; }
}
fn caller() {
  let v: B = B { x: 1 };
  let cur: B = v.cursor();
  let m: i32 = cur.x;
  return;
}";
    let dump = analyze_src(src);
    assert!(
        dump.contains("v=BorrowedExclusive(cur)"),
        "expected exclusive-borrow state on v; got:\n{dump}"
    );
}

#[test]
fn e0383_fires_on_read_of_exclusively_borrowed_place() {
    let src = "\
struct B { x: i32 }
impl B { fn drop(ref this) { return; } }
fn cursor(ref b: B) -> B { return b; }
fn peek(b: B) -> i32 { return b.x; }
fn caller() {
  let v: B = B { x: 1 };
  let cur: B = cursor(v);
  let n: i32 = peek(v);
  let m: i32 = cur.x;
  return;
}";
    let codes = check_src(src);
    assert!(
        codes.iter().any(|c| c == "E0383"),
        "expected E0383 in {codes:?}"
    );
}

#[test]
fn e0383_does_not_fire_after_exclusive_borrower_scope_exits() {
    let src = "\
struct B { x: i32 }
impl B { fn drop(ref this) { return; } }
fn cursor(ref b: B) -> B { return b; }
fn peek(b: B) -> i32 { return b.x; }
fn caller() {
  let v: B = B { x: 1 };
  if true {
    let cur: B = cursor(v);
    return;
  }
  let n: i32 = peek(v);
  return;
}";
    let codes = check_src(src);
    assert!(
        !codes.iter().any(|c| c == "E0383"),
        "E0383 should not fire after the borrower's scope exits; got {codes:?}"
    );
}

#[test]
fn nll_move_under_a_borrower_with_a_destructor_is_rejected() {
    let src = "\
struct B { x: i32 }
impl B { fn drop(ref this) { return; } }
fn passthrough(b: B) -> B { return b; }
fn drain(take b: B) { return; }
fn caller() {
  let x: B = B { x: 1 };
  let r: B = passthrough(x);
  let n: i32 = r.x;
  drain(x);
  return;
}";
    let codes = check_src(src);
    assert!(
        codes.iter().any(|c| c == "E0372"),
        "`r`'s destructor still has to run — the move must be refused; got {codes:?}"
    );
}

#[test]
fn nll_view_borrower_without_a_destructor_still_relaxes() {
    let src = "\
struct Owner { n: i32 }
impl Owner { fn drop(ref this) { return; } }
fn view(o: Owner) -> str { return \"x\"; }
fn caller() {
  var o: Owner = Owner { n: 1 };
  let v: str = view(o);
  let w: str = v;
  o.n = 5;
  return;
}";
    let codes = check_src(src);
    assert!(
        !codes.iter().any(|c| c == "E0381" || c == "E0383" || c == "E0372"),
        "a dead view borrower must release its owner; got {codes:?}"
    );
}

#[test]
fn nll_write_under_a_scope_that_has_not_joined_is_rejected() {
    let codes = check_src(&format!(
        "{SCOPE_MOCK}\
             fn main() -> i32 {{\n                 var s: Scope = Scope {{ c: 0 }};\n                 var d: Data = Data {{ n: 1 }};\n                 s.lend(d);\n                 d.n = 5;\n                 return 0;\n             }}"
    ));
    assert!(
        codes.iter().any(|c| c == "E0381"),
        "the loan ends where the scope does, not at its last mention; got {codes:?}"
    );
}

#[test]
fn a_never_used_borrower_with_a_destructor_still_holds_its_claim() {
    let src = "\
struct B { x: i32 }
impl B { fn drop(ref this) { return; } }
fn cursor(ref b: B) -> B { return b; }
fn drain(take b: B) { return; }
fn caller() {
  let v: B = B { x: 1 };
  let cur: B = cursor(v);
  drain(v);
  return;
}";
    let codes = check_src(src);
    assert!(
        codes.iter().any(|c| c == "E0372" || c == "E0383"),
        "a borrower with a destructor is never dead early; got {codes:?}"
    );
}

#[test]
fn nll_use_inside_loop_pins_borrow_past_the_loop() {
    let src = "\
struct B { x: i32 }
impl B { fn drop(ref this) { return; } }
fn passthrough(b: B) -> B { return b; }
fn caller() {
  var x: B = B { x: 1 };
  let r: B = passthrough(x);
  var i: i32 = 0;
  while i < 3 {
    let n: i32 = r.x;
    x.x = 5;
    i = i + 1;
  }
  return;
}";
    let codes = check_src(src);
    assert!(
        codes.iter().any(|c| c == "E0381"),
        "a loop-body use pins the borrow across the back edge; got {codes:?}"
    );
}

#[test]
fn nll_defer_mention_pins_borrow_to_scope_exit() {
    let src = "\
struct B { x: i32 }
impl B { fn drop(ref this) { return; } }
fn passthrough(b: B) -> B { return b; }
fn drain(take b: B) { return; }
fn peek(b: B) -> i32 { return b.x; }
fn caller() {
  let x: B = B { x: 1 };
  let r: B = passthrough(x);
  defer peek(r);
  drain(x);
  return;
}";
    let codes = check_src(src);
    assert!(
        codes.iter().any(|c| c == "E0372"),
        "a defer mention pins the borrow to scope exit; got {codes:?}"
    );
}

#[test]
fn nll_block_tail_mention_pins_borrow() {
    let src = "\
struct B { x: i32 }
impl B { fn drop(ref this) { return; } }
fn passthrough(b: B) -> B { return b; }
fn drain(take b: B) { return; }
fn caller() {
  let x: B = B { x: 1 };
  let m: i32 = {
    let r: B = passthrough(x);
    drain(x);
    r.x
  };
  return;
}";
    let codes = check_src(src);
    assert!(
        codes.iter().any(|c| c == "E0372"),
        "a tail mention pins the borrow past every statement; got {codes:?}"
    );
}

#[test]
fn e0383_does_not_fire_on_borrower_itself() {
    let src = "\
struct B { x: i32 }
impl B { fn drop(ref this) { return; } }
fn cursor(ref b: B) -> B { return b; }
fn peek(b: B) -> i32 { return b.x; }
fn caller() {
  let v: B = B { x: 1 };
  let cur: B = cursor(v);
  let n: i32 = peek(cur);
  return;
}";
    let codes = check_src(src);
    assert!(
        !codes.iter().any(|c| c == "E0383"),
        "E0383 should not fire when reading the borrower itself; got {codes:?}"
    );
}

#[test]
fn e0372_message_refined_when_borrow_is_exclusive() {
    let src = "\
struct B { x: i32 }
impl B { fn drop(ref this) { return; } }
fn cursor(ref b: B) -> B { return b; }
fn drain(take b: B) { return; }
fn caller() {
  let v: B = B { x: 1 };
  let cur: B = cursor(v);
  drain(v);
  let m: i32 = cur.x;
  return;
}";
    let prog = parse_prog(src);
    let diags = check(&prog, "t.cplus", src);
    let e0372 = diags
        .iter()
        .find(|d| d.code.0 == "E0372")
        .expect("expected E0372");
    assert!(
        e0372.message.contains("exclusively borrowed"),
        "E0372 message should say 'exclusively borrowed'; got: {}",
        e0372.message
    );

    let e0383_count = diags.iter().filter(|d| d.code.0 == "E0383").count();
    assert_eq!(
        e0383_count,
        0,
        "E0383 should be suppressed for move-while-exclusive; got {} diagnostics",
        diags.len()
    );
}

#[test]
fn exclusive_borrow_does_not_fire_on_copy_param() {
    let src = "\
fn handle(ref x: i32) -> i32 { return x; }
fn caller() {
  let v: i32 = 1;
  let r: i32 = handle(v);
  let m: i32 = v;
  return;
}";
    let codes = check_src(src);
    assert!(
        !codes.iter().any(|c| c == "E0383"),
        "E0383 should not fire on Copy params; got {codes:?}"
    );
}

#[test]
fn e1_mut_classification_with_flavor() {
    let src = "\
struct B { x: i32 }
impl B { fn drop(ref this) { return; } }
fn through(ref b: B) -> B { return b; }";
    let prog = parse_prog(src);
    assert_eq!(
        return_borrow_source_with_flavor(&prog, "through"),
        Some((ReturnBorrowSource::Param(0), BorrowFlavor::Exclusive))
    );
}

#[test]
fn e1_shared_classification_with_flavor() {
    let src = "\
struct B { x: i32 }
impl B { fn drop(ref this) { return; } }
fn through(b: B) -> B { return b; }";
    let prog = parse_prog(src);
    assert_eq!(
        return_borrow_source_with_flavor(&prog, "through"),
        Some((ReturnBorrowSource::Param(0), BorrowFlavor::Shared))
    );
}

#[test]
fn e1_mut_does_not_fire_on_move_marker() {
    let src = "\
struct B { x: i32 }
impl B { fn drop(ref this) { return; } }
fn drain(take b: B) -> B { return b; }";
    let prog = parse_prog(src);
    assert_eq!(return_borrow_source_with_flavor(&prog, "drain"), None);
}

#[test]
fn place_overlap_same() {
    let a = Place::root("buf");
    let b = Place::root("buf");
    assert_eq!(a.overlap(&b), PlaceOverlap::Same);
}

#[test]
fn place_overlap_disjoint_roots() {
    let a = Place::root("buf");
    let b = Place::root("ctx");
    assert_eq!(a.overlap(&b), PlaceOverlap::Disjoint);
}

#[test]
fn place_overlap_disjoint_sub_places() {
    let mut a = Place::root("buf");
    a.projections.push(Projection::Field("left".to_string()));
    let mut b = Place::root("buf");
    b.projections.push(Projection::Field("right".to_string()));
    assert_eq!(a.overlap(&b), PlaceOverlap::Disjoint);
}

#[test]
fn place_overlap_parent_contains_child() {
    let parent = Place::root("buf");
    let mut child = Place::root("buf");
    child
        .projections
        .push(Projection::Field("left".to_string()));
    assert_eq!(parent.overlap(&child), PlaceOverlap::Contains);
    assert_eq!(child.overlap(&parent), PlaceOverlap::Contained);
}

#[test]
fn place_overlap_index_const_distinct() {
    let mut a = Place::root("arr");
    a.projections.push(Projection::Index(3));
    let mut b = Place::root("arr");
    b.projections.push(Projection::Index(7));
    assert_eq!(a.overlap(&b), PlaceOverlap::Disjoint);
}

#[test]
fn place_overlap_index_any_overlaps_const() {
    let mut a = Place::root("arr");
    a.projections.push(Projection::AnyIndex);
    let mut b = Place::root("arr");
    b.projections.push(Projection::Index(3));

    assert_eq!(a.overlap(&b), PlaceOverlap::Disjoint);
}

#[test]
fn partial_place_admit_disjoint_subfields_in_one_call() {
    let src = "\
struct Inner { v: i32 }
impl Inner { fn drop(ref this) { return; } }
struct Pair { left: Inner, right: Inner }
impl Pair { fn drop(ref this) { return; } }
fn modify_both(ref a: Inner, ref b: Inner) { return; }
fn caller() {
  let p: Pair = Pair { left: Inner { v: 1 }, right: Inner { v: 2 } };
  modify_both(p.left, p.right);
  return;
}";
    let codes = check_src(src);
    let conflict_codes: Vec<&String> = codes
        .iter()
        .filter(|c| {
            ["E0370", "E0374", "E0380", "E0381", "E0382", "E0383"].contains(&c.as_str())
        })
        .collect();
    assert!(
        conflict_codes.is_empty(),
        "disjoint sub-places should admit; got: {codes:?}"
    );
}

#[test]
fn e0374_partial_overlap_parent_with_subfield_in_one_call() {
    let src = "\
struct Inner { v: i32 }
impl Inner { fn drop(ref this) { return; } }
struct Pair { left: Inner, right: Inner }
impl Pair { fn drop(ref this) { return; } }
fn write_pair(ref a: Pair, b: Inner) { return; }
fn caller() {
  let p: Pair = Pair { left: Inner { v: 1 }, right: Inner { v: 2 } };
  write_pair(p, p.left);
  return;
}";
    let codes = check_src(src);
    assert!(
        codes.iter().any(|c| c == "E0374"),
        "expected E0374 in {codes:?}"
    );
}

#[test]
fn e0374_cross_statement_read_of_parent_while_subfield_borrowed() {
    let src = "\
struct Inner { v: i32 }
impl Inner { fn drop(ref this) { return; } }
struct Pair { left: Inner, right: Inner }
impl Pair { fn drop(ref this) { return; } }
fn cursor(ref i: Inner) -> Inner { return i; }
fn peek_pair(p: Pair) -> i32 { return 0; }
fn caller() {
  let p: Pair = Pair { left: Inner { v: 1 }, right: Inner { v: 2 } };
  let cur: Inner = cursor(p.left);
  let n: i32 = peek_pair(p);
  let m: i32 = cur.v;
  return;
}";
    let codes = check_src(src);
    assert!(
        codes.iter().any(|c| c == "E0374"),
        "expected E0374 cross-statement in {codes:?}"
    );
}

#[test]
fn e0374_does_not_fire_on_disjoint_subfield_cross_statement() {
    let src = "\
struct Inner { v: i32 }
impl Inner { fn drop(ref this) { return; } }
struct Pair { left: Inner, right: Inner }
impl Pair { fn drop(ref this) { return; } }
fn cursor(ref i: Inner) -> Inner { return i; }
fn peek(i: Inner) -> i32 { return i.v; }
fn caller() {
  let p: Pair = Pair { left: Inner { v: 1 }, right: Inner { v: 2 } };
  let cur: Inner = cursor(p.left);
  let n: i32 = peek(p.right);
  return;
}";
    let codes = check_src(src);
    let conflict_codes: Vec<&String> = codes
        .iter()
        .filter(|c| ["E0374", "E0383"].contains(&c.as_str()))
        .collect();
    assert!(
        conflict_codes.is_empty(),
        "disjoint sub-places should admit cross-statement; got: {codes:?}"
    );
}

#[test]
fn place_from_expr_walks_field_chain() {
    let prog = parse_prog("fn f() { let p: Inner = Inner { v: 1 }; let n: i32 = p.left.v; return; }");

    let ItemKind::Function(ref f) = prog.items[0].kind else {
        panic!()
    };
    let StmtKind::Let { init: Some(e), .. } = &f.body.stmts[1].kind else {
        panic!()
    };
    let place = place_from_expr(e).expect("place built");
    assert_eq!(place.root, "p");
    assert_eq!(place.projections.len(), 2);
    assert_eq!(place.canonical(), "p.left.v");
}

#[test]
fn e3_mut_fires_on_multi_mut_param_with_param_rooted_returns() {
    let src = "\
struct B { x: i32 }
impl B { fn drop(ref this) { return; } }
fn longest_mut(ref a: B, ref b: B) -> B {
  if a.x > b.x { return a; }
  return b;
}";
    let prog = parse_prog(src);
    assert_eq!(
        return_borrow_source_with_flavor(&prog, "longest_mut"),
        Some((
            ReturnBorrowSource::MultiParam(vec![0, 1]),
            BorrowFlavor::Exclusive
        ))
    );
}

#[test]
fn e3_mut_does_not_fire_with_mixed_shared_and_mut_params() {
    let src = "\
struct B { x: i32 }
impl B { fn drop(ref this) { return; } }
fn mixed(a: B, ref b: B) -> B { return b; }";
    let prog = parse_prog(src);
    assert_eq!(return_borrow_source_with_flavor(&prog, "mixed"), None);
}

#[test]
fn e3_mut_multi_source_borrow_at_call_site() {
    let src = "\
struct B { x: i32 }
impl B { fn drop(ref this) { return; } }
fn longest_mut(ref a: B, ref b: B) -> B {
  if a.x > b.x { return a; }
  return b;
}
fn drain(take b: B) { return; }
fn caller() {
  let a: B = B { x: 1 };
  let b: B = B { x: 2 };
  let r: B = longest_mut(a, b);
  drain(a);
  let n: i32 = r.x;
  return;
}";
    let codes = check_src(src);
    assert!(
        codes.iter().any(|c| c == "E0372"),
        "expected E0372 in {codes:?}"
    );
}

#[test]
fn e0383_releases_when_exclusive_borrower_is_moved() {
    let src = "\
struct B { x: i32 }
impl B { fn drop(ref this) { return; } }
fn cursor(ref b: B) -> B { return b; }
fn drain(take c: B) { return; }
fn peek(b: B) -> i32 { return b.x; }
fn caller() {
  let v: B = B { x: 1 };
  let cur: B = cursor(v);
  drain(cur);
  let n: i32 = peek(v);
  return;
}";
    let codes = check_src(src);
    assert!(
        !codes.iter().any(|c| c == "E0383"),
        "E0383 should not fire after moving the exclusive borrower; got {codes:?}"
    );
}

const VIEW_PRELUDE: &str = "\
struct Buf { opaque p: *u8 }
impl Buf {
  fn new() -> Buf { return Buf { p: { 0 as *u8 } }; }
  fn view(this) -> str { return \"x\"; }
  fn drop(ref this) { return; }
}
struct Slot { s: str }
struct Nest { inner: Slot }
struct Holder { b: Buf }
impl Holder { fn drop(ref this) { return; } }
enum Wrap { V(str), N }
fn consume(take t: Buf) -> i32 { return 0; }
fn consume_h(take h: Holder) -> i32 { return 0; }
";

#[test]
fn view_captured_into_aggregate_blocks_owner_move() {
    let shapes: &[(&str, &str, &str)] = &[
        ("struct_lit", "let w: Slot = Slot { s: t.view() };", "let u: Slot = w;"),
        ("nested_struct_lit", "let w: Nest = Nest { inner: Slot { s: t.view() } };", "let u: Nest = w;"),
        ("array_lit", "let w: [str; 1] = [t.view()];", "let u: [str; 1] = w;"),
        ("tuple_lit", "let w: (str, i32) = (t.view(), 1);", "let u: (str, i32) = w;"),
        ("enum_payload", "let w: Wrap = Wrap::V(t.view());", "let u: Wrap = w;"),
    ];
    for (sname, capture, later_use) in shapes {
        let src = format!(
            "{VIEW_PRELUDE}fn f_{sname}() {{ let t: Buf = Buf::new(); {capture} let _c: i32 = consume(t); {later_use} return; }}"
        );
        let codes = check_src(&src);
        assert!(
            codes.iter().any(|c| c == "E0372"),
            "[view-escape {sname}] expected E0372 (move while view captured in aggregate), got {codes:?}"
        );
    }
}

#[test]
fn view_method_on_field_path_receiver_blocks_owner_move() {
    let src = format!(
        "{VIEW_PRELUDE}fn f() {{ let h: Holder = Holder {{ b: Buf::new() }}; \
             let w: str = h.b.view(); let _c: i32 = consume_h(h); let u: str = w; return; }}"
    );
    let codes = check_src(&src);
    assert!(
        codes.iter().any(|c| c == "E0372"),
        "[view-escape field-path] expected E0372, got {codes:?}"
    );
}

#[test]
fn owner_move_sites_blocked_while_view_live() {
    let sites: &[(&str, &str)] = &[
        ("take_call", "let _c: i32 = consume(t);"),
        ("let_rebind", "let t2: Buf = t;"),
        ("struct_field", "let h2: Holder = Holder { b: t };"),
        ("array_elem", "let a2: [Buf; 1] = [t];"),
        ("tuple_elem", "let p2: (Buf, i32) = (t, 1);"),
    ];
    for (sname, mv) in sites {
        let src = format!(
            "{VIEW_PRELUDE}fn f_{sname}() {{ let t: Buf = Buf::new(); \
                 let w: str = t.view(); {mv} let u: str = w; return; }}"
        );
        let codes = check_src(&src);
        assert!(
            codes.iter().any(|c| c == "E0372"),
            "[move-site {sname}] expected E0372 (move while view live), got {codes:?}"
        );
    }
}

#[test]
fn aggregate_without_view_capture_stays_clean() {
    let clean: &[(&str, &str)] = &[

        (
            "owned_capture",
            "let t: Buf = Buf::new(); let h: Holder = Holder { b: t }; return;",
        ),

        (
            "unrelated_owner",
            "let t: Buf = Buf::new(); let u: Buf = Buf::new(); \
                 let w: str = t.view(); let _c: i32 = consume(u); return;",
        ),
    ];
    for (cname, body) in clean {
        let src = format!("{VIEW_PRELUDE}fn f_{cname}() {{ {body} }}");
        let codes = check_src(&src);
        assert!(
            !codes.iter().any(|c| c == "E0372"),
            "[clean {cname}] unexpected E0372: {codes:?}"
        );
    }
}

const LANG_STR_PRELUDE: &str = "\
#[lang(\"string\")]
struct LStr { opaque ptr: *u8, len: usize, cap: usize }
impl LStr { fn drop(ref this) { return; } }
fn mk() -> LStr { return LStr { ptr: { 0 as *u8 }, len: { 0 as usize }, cap: { 0 as usize } }; }
";

#[test]
fn returned_view_of_local_owner_denied_e0513() {
    let cases: &[(&str, &str)] = &[
        ("local", "fn bad() -> str { let b: Buf = Buf::new(); return b.view(); }"),
        (
            "alias",
            "fn bad() -> str { let b: Buf = Buf::new(); let s: str = b.view(); return s; }",
        ),
        ("take_param", "fn steal(take b: Buf) -> str { return b.view(); }"),
        (
            "take_this",
            "impl Buf { fn into_view(take this) -> str { return this.view(); } }",
        ),
        (
            "through_free_fn",
            "fn head(b: Buf) -> str { return b.view(); }\n\
                 fn bad() -> str { let b: Buf = Buf::new(); return head(b); }",
        ),
        (
            "carrying_aggregate",
            "fn keep() -> Slot { let b: Buf = Buf::new(); return Slot { s: b.view() }; }",
        ),
        (
            "branch_alias",
            "fn bad(flag: bool) -> str { let b: Buf = Buf::new(); \
                 var v: str; if flag { v = b.view(); } else { v = \"lit\"; } return v; }",
        ),
    ];
    for (name, tail) in cases {
        let codes = check_src(&format!("{VIEW_PRELUDE}{tail}"));
        assert!(
            codes.iter().any(|c| c == "E0513"),
            "[{name}] expected E0513, got {codes:?}"
        );
    }
}

#[test]
fn returning_a_view_carrying_owner_is_a_move_not_an_escape() {
    let clean: &[(&str, &str)] = &[
        (
            "bare_move",
            "fn split(s: str) -> Vec[str] { var out: Vec[str] = mk_vec(); return out; }",
        ),
        (
            "moved_into_returned_aggregate",
            "struct Surface { rows: Vec[str] }\n\
                 fn open() -> Surface { var rows: Vec[str] = mk_vec(); return Surface { rows: rows }; }",
        ),
    ];
    for (name, tail) in clean {
        let codes = check_src(&format!(
            "fn mk_vec() -> Vec[str] {{ return #zero::[Vec[str]](); }}\n{tail}"
        ));
        assert!(
            !codes.iter().any(|c| c == "E0513"),
            "[{name}] a move is not an escape, got {codes:?}"
        );
    }
}

#[test]
fn returned_view_coerced_from_a_local_owner_denied_e0513() {
    let codes = check_src(&format!(
        "{LANG_STR_PRELUDE}fn bad() -> str {{ let s: LStr = mk(); return s; }}"
    ));
    assert!(
        codes.iter().any(|c| c == "E0513"),
        "expected E0513 on a returned local-string view, got {codes:?}"
    );
}

#[test]
fn returned_view_of_caller_owned_storage_stays_clean() {
    let clean: &[(&str, &str)] = &[
        ("bare_param", "fn head(b: Buf) -> str { return b.view(); }"),
        ("this_receiver", "impl Buf { fn v2(this) -> str { return this.view(); } }"),
        ("literal", "fn ok() -> str { let s: str = \"lit\"; return s; }"),
        ("view_param", "fn first(s: str) -> str { return s; }"),
        (
            "param_rooted_aggregate",
            "fn wrap(b: Buf) -> Slot { return Slot { s: b.view() }; }",
        ),
        (
            "moved_owned_field",
            "fn wrap2(take b: Buf) -> Holder { return Holder { b: b }; }",
        ),
    ];
    for (name, tail) in clean {
        let codes = check_src(&format!("{VIEW_PRELUDE}{tail}"));
        assert!(
            !codes.iter().any(|c| c == "E0513"),
            "[{name}] must not be denied, got {codes:?}"
        );
    }
}

#[test]
fn returned_view_of_param_lang_string_stays_clean() {
    let codes = check_src(&format!(
        "{LANG_STR_PRELUDE}fn bare(p: LStr) -> str {{ return p; }}"
    ));
    assert!(
        !codes.iter().any(|c| c == "E0513"),
        "a param-rooted coerced view must not be denied, got {codes:?}"
    );
}

#[test]
fn view_leaf_inside_returned_aggregate_denied_e0513() {
    let cases: &[(&str, &str)] = &[
        (
            "struct_field",
            "fn keep() -> Slot { let b: Buf = Buf::new(); return Slot { s: b.view() }; }",
        ),
        (
            "nested_struct",
            "fn keep2() -> Nest { let b: Buf = Buf::new(); \
                 return Nest { inner: Slot { s: b.view() } }; }",
        ),
        (
            "array_element",
            "fn keep3() -> [str; 1] { let b: Buf = Buf::new(); return [b.view()]; }",
        ),
    ];
    for (name, tail) in cases {
        let codes = check_src(&format!("{VIEW_PRELUDE}{tail}"));
        assert!(
            codes.iter().any(|c| c == "E0513"),
            "[{name}] expected E0513, got {codes:?}"
        );
    }
}

#[test]
fn coerced_owner_leaf_in_returned_aggregate_denied_e0513() {
    let codes = check_src(&format!(
        "{LANG_STR_PRELUDE}struct Holder {{ view: str }}\n\
             fn keep() -> Holder {{ let s: LStr = mk(); return Holder {{ view: s }}; }}"
    ));
    assert!(
        codes.iter().any(|c| c == "E0513"),
        "expected E0513 on a coerced view escaping in an aggregate, got {codes:?}"
    );
}

#[test]
fn owned_leaf_moved_into_returned_aggregate_stays_clean() {
    let clean: &[(&str, &str)] = &[
        (
            "moved_owner",
            "fn wrap(take b: Buf) -> Holder { return Holder { b: b }; }",
        ),
        (
            "param_rooted_leaf",
            "fn wrap2(b: Buf) -> Slot { return Slot { s: b.view() }; }",
        ),
        (
            "literal_leaf",
            "fn wrap3() -> Slot { return Slot { s: \"lit\" }; }",
        ),
    ];
    for (name, tail) in clean {
        let codes = check_src(&format!("{VIEW_PRELUDE}{tail}"));
        assert!(
            !codes.iter().any(|c| c == "E0513"),
            "[{name}] must not be denied, got {codes:?}"
        );
    }
}

#[test]
fn raw_view_store_without_a_declaration_denied_e0516() {
    let codes = check_src("fn stash(slot: *str, v: str) { *slot = v; return; }");
    assert!(
        codes.iter().any(|c| c == "E0516"),
        "expected E0516 on an undeclared raw view store, got {codes:?}"
    );
    let codes = check_src(
        "struct Data { key: str }\n\
             fn stash2(slot: *Data, v: Data) { *slot = v; return; }",
    );
    assert!(
        codes.iter().any(|c| c == "E0516"),
        "a carrier through a raw pointer is the same store, got {codes:?}"
    );
}

#[test]
fn raw_store_through_a_projection_is_the_same_seam_e0516() {
    let cases: &[(&str, &str)] = &[
        (
            "field_of_pointee",
            "struct Sink { key: str }\n\
                 fn keep(into: *Sink, k: str) { { (*into).key = k }; return; }",
        ),
        (
            "nested_field",
            "struct Inner { key: str }\n\
                 struct Outer { inner: Inner }\n\
                 fn keep2(into: *Outer, k: str) { { (*into).inner.key = k }; return; }",
        ),
        (
            "element_of_pointee",
            "fn keep3(into: *[str; 4], k: str) { { (*into)[0] = k }; return; }",
        ),
        (
            "carrier_field",
            "struct Sink { key: str }\n\
                 struct Holder { s: Sink }\n\
                 fn keep4(into: *Holder, v: Sink) { { (*into).s = v }; return; }",
        ),
    ];
    for (name, src) in cases {
        let codes = check_src(src);
        assert!(
            codes.iter().any(|c| c == "E0516"),
            "[{name}] a projected raw store must be denied, got {codes:?}"
        );
    }
}

#[test]
fn projected_raw_store_respects_the_same_gates() {
    let clean: &[(&str, &str)] = &[
        (
            "declared_keeps_nothing",
            "struct Sink { key: str }\n\
                 #[keeps(nothing)]\n\
                 fn keep(into: *Sink, k: str) { { (*into).key = k }; return; }",
        ),
        (
            "non_view_field",
            "struct Counter { n: i32 }\n\
                 fn bump(into: *Counter, n: i32) { { (*into).n = n }; return; }",
        ),
        (
            "field_of_a_local",
            "struct Sink { key: str }\n\
                 fn keep2(k: str) { var s: Sink = Sink { key: \"\" }; s.key = k; return; }",
        ),
    ];
    for (name, src) in clean {
        let codes = check_src(src);
        assert!(
            !codes.iter().any(|c| c == "E0516"),
            "[{name}] must not be denied, got {codes:?}"
        );
    }
}

#[test]
fn declared_or_non_view_raw_store_stays_clean() {
    let clean: &[(&str, &str)] = &[
        (
            "keeps_nothing",
            "#[keeps(nothing)]\nfn stash(slot: *str, v: str) { *slot = v; return; }",
        ),
        (
            "keeps_this",
            "struct S { n: i32 }\n\
                 impl S { #[keeps(this)] fn put(this, slot: *str, v: str) { *slot = v; return; } }",
        ),
        ("bytes", "fn poke(p: *u8, b: u8) { *p = b; return; }"),
        (
            "pointer_store",
            "fn relink(pp: **u8, p: *u8) { *pp = p; return; }",
        ),
    ];
    for (name, src) in clean {
        let codes = check_src(src);
        assert!(
            !codes.iter().any(|c| c == "E0516"),
            "[{name}] must not be denied, got {codes:?}"
        );
    }
}

#[test]
fn view_of_a_local_stored_into_an_outliving_place_denied_e0513() {
    let cases: &[(&str, &str)] = &[
        (
            "static_view",
            "static S: str = \"\";\n\
                 fn bad() { let b: Buf = Buf::new(); S = b.view(); return; }",
        ),
        (
            "static_field",
            "static W: Slot = Slot { s: \"\" };\n\
                 fn bad() { let b: Buf = Buf::new(); W.s = b.view(); return; }",
        ),
        (
            "ref_out_param",
            "fn stash(ref w: Slot) { let b: Buf = Buf::new(); w.s = b.view(); return; }",
        ),
    ];
    for (name, tail) in cases {
        let codes = check_src(&format!("{VIEW_PRELUDE}{tail}"));
        assert!(
            codes.iter().any(|c| c == "E0513"),
            "[{name}] expected E0513, got {codes:?}"
        );
    }
}

#[test]
fn view_param_stored_where_nothing_ties_denied_e0515() {
    let cases: &[(&str, &str)] = &[
        (
            "static_sink",
            "static KEY: str = \"\";\nfn stash(k: str) { KEY = k; return; }",
        ),
        (
            "address_taken",
            "struct Holder { view: str }\n\
                 fn put(ref h: Holder, k: str) { h.view = k; return; }\n\
                 fn consume(f: fn(ref Holder, str)) { return; }\n\
                 fn main() -> i32 { consume(put); return 0; }",
        ),
        (
            "generic_method_receiver_store",
            "struct Holder { view: str }\n\
                 impl Holder { fn set[U](ref this, k: str, u: U) { this.view = k; return; } }",
        ),
    ];
    for (name, src) in cases {
        let codes = check_src(src);
        assert!(
            codes.iter().any(|c| c == "E0515"),
            "[{name}] expected E0515, got {codes:?}"
        );
    }
}

#[test]
fn view_param_store_the_flow_pass_exports_stays_clean() {
    let clean: &[(&str, &str)] = &[
        (
            "keeps_this",
            "struct Holder { view: str }\n\
                 impl Holder { #[keeps(this)] fn set(ref this, k: str) { this.view = k; return; } }",
        ),
        (
            "computed_concrete_setter",
            "struct Holder { view: str }\n\
                 impl Holder { fn set(ref this, k: str) { this.view = k; return; } }",
        ),
        (
            "computed_generic_setter",
            "struct GenHolder[T] { opaque p: *u8, view: str }\n\
                 impl GenHolder[T] { fn gset(ref this, k: str) { this.view = k; return; } }",
        ),
        (
            "computed_free_fn_ref_flow",
            "struct Holder { view: str }\n\
                 fn put(ref h: Holder, k: str) { h.view = k; return; }",
        ),
    ];
    for (name, src) in clean {
        let codes = check_src(src);
        assert!(
            !codes.iter().any(|c| c == "E0515"),
            "[{name}] an exported store must not be denied, got {codes:?}"
        );
    }
}

#[test]
fn view_of_an_unnamed_temporary_denied_e0513() {
    let cases: &[(&str, &str)] = &[
        ("let", "fn f() { let s: str = Buf::new().view(); return; }"),
        ("return", "fn f() -> str { return Buf::new().view(); }"),
        (
            "assign",
            "fn f() { var s: str = \"\"; s = Buf::new().view(); return; }",
        ),
    ];
    for (name, tail) in cases {
        let codes = check_src(&format!("{VIEW_PRELUDE}{tail}"));
        assert!(
            codes.iter().any(|c| c == "E0513"),
            "[{name}] expected E0513, got {codes:?}"
        );
    }
}

const VIEW_CHAIN_PRELUDE: &str = "\
impl str { fn narrow(this) -> str { return this; } }
";

#[test]
fn view_of_a_temporary_laundered_through_a_str_method_denied_e0513() {
    let cases: &[(&str, &str)] = &[
        (
            "let_one_link",
            "fn f() { let s: str = Buf::new().view().narrow(); return; }",
        ),
        (
            "let_two_links",
            "fn f() { let s: str = Buf::new().view().narrow().narrow(); return; }",
        ),
        (
            "return",
            "fn f() -> str { return Buf::new().view().narrow(); }",
        ),
        (
            "assign",
            "fn f() { var s: str = \"\"; s = Buf::new().view().narrow(); return; }",
        ),
        (
            "field_store",
            "fn f() { var sl: Slot = Slot { s: \"\" }; sl.s = Buf::new().view().narrow(); return; }",
        ),
    ];
    for (name, tail) in cases {
        let codes = check_src(&format!("{VIEW_PRELUDE}{VIEW_CHAIN_PRELUDE}{tail}"));
        assert!(
            codes.iter().any(|c| c == "E0513"),
            "[{name}] expected E0513, got {codes:?}"
        );
    }
}

#[test]
fn view_chain_rooted_in_a_named_owner_stays_clean() {
    let clean: &[(&str, &str)] = &[
        (
            "named_owner",
            "fn f() { let b: Buf = Buf::new(); let s: str = b.view().narrow(); return; }",
        ),
        (
            "named_owner_deep",
            "fn f() { let b: Buf = Buf::new(); let s: str = b.view().narrow().narrow(); return; }",
        ),
        (
            "literal_root",
            "fn f() { let s: str = \"lit\".narrow(); return; }",
        ),
        (
            "param_root",
            "fn f(p: str) { let s: str = p.narrow().narrow(); return; }",
        ),
    ];
    for (name, tail) in clean {
        let codes = check_src(&format!("{VIEW_PRELUDE}{VIEW_CHAIN_PRELUDE}{tail}"));
        assert!(
            !codes.iter().any(|c| c == "E0513"),
            "[{name}] must not be denied, got {codes:?}"
        );
    }
}

#[test]
fn a_method_that_copies_its_view_argument_keeps_nothing() {
    let src = format!(
        "{LANG_STR_PRELUDE}\
             impl LStr {{ fn to_text(this) -> LStr {{ return mk(); }} }}\n\
             struct Row {{ body: LStr }}\n\
             impl Row {{ fn show(ref this, body: str) {{ this.body = body.to_text(); return; }} }}\n\
             struct Chat {{ row: Row }}\n\
             impl Chat {{\n\
               fn aim(ref this, k: i32) {{\n\
                 if k == 1 {{\n\
                   let owner: LStr = mk();\n\
                   let v: str = owner.view();\n\
                   this.row.show(v);\n\
                 }} else {{\n\
                   this.row.show(\"lit\");\n\
                 }}\n\
                 return;\n\
               }}\n\
             }}\n\
             impl LStr {{ fn view(this) -> str {{ return \"x\"; }} }}"
    );
    let codes = check_src(&src);
    assert!(
        !codes.iter().any(|c| c == "E0514"),
        "a copying method must not tie its caller's receiver, got {codes:?}"
    );
}

#[test]
fn str_receiver_resolves_lang_string_methods_for_the_temporary_rule() {
    let src = format!(
        "{LANG_STR_PRELUDE}\
             impl LStr {{ fn view(this) -> str {{ return \"x\"; }} }}\n\
             impl str {{ fn to_lstr(this) -> LStr {{ return mk(); }} }}\n\
             fn f(q: str) {{ let s: str = q.to_lstr().view(); return; }}"
    );
    let codes = check_src(&src);
    assert!(
        codes.iter().any(|c| c == "E0513"),
        "expected E0513 for a view of a promoted-receiver temporary, got {codes:?}"
    );
}

const COERCE_PRELUDE: &str = "\
impl LStr { fn view(this) -> str { return \"x\"; } }
struct Slot { s: str, n: i32 }
struct Own { o: LStr }
impl Own { fn drop(ref this) { return; } }
fn peek(x: str) -> i32 { return 0; }
";

#[test]
fn view_bound_from_an_rvalue_owner_denied_e0513() {
    let cases: &[(&str, &str)] = &[
        ("let_coercion", "fn f() { let s: str = mk(); return; }"),
        (
            "assign_coercion",
            "fn f() { var s: str = \"\"; s = mk(); return; }",
        ),
        (
            "let_interpolation",
            "fn f() { let n: i32 = 1; let s: str = \"x ${n}\"; return; }",
        ),
        (
            "assign_interpolation",
            "fn f() { let n: i32 = 1; var s: str = \"\"; s = \"x ${n}\"; return; }",
        ),

        (
            "struct_field_coercion",
            "fn f() { let w: Slot = Slot { s: mk(), n: 1 }; return; }",
        ),
        (
            "struct_field_view_of_temp",
            "fn f() { let w: Slot = Slot { s: mk().view(), n: 1 }; return; }",
        ),
        (
            "tuple_element",
            "fn f() { let w: (str, i32) = (mk(), 1); return; }",
        ),
        ("array_element", "fn f() { let w: [str; 1] = [mk()]; return; }"),
        (
            "assign_into_carrier",
            "fn f() { var w: Slot = Slot { s: \"\", n: 0 }; w = Slot { s: mk(), n: 1 }; return; }",
        ),
        (
            "destructure",
            "fn f() { let Slot { s, n } = Slot { s: mk().view(), n: 1 }; return; }",
        ),

        (
            "braced",
            "fn f() { let s: str = { mk() }; return; }",
        ),
    ];
    for (name, tail) in cases {
        let codes = check_src(&format!("{LANG_STR_PRELUDE}{COERCE_PRELUDE}{tail}"));
        assert!(
            codes.iter().any(|c| c == "E0513"),
            "[{name}] expected E0513, got {codes:?}"
        );
    }
}

#[test]
fn coercion_from_a_named_owner_or_at_an_argument_stays_clean() {
    let clean: &[(&str, &str)] = &[
        (
            "named_owner_coercion",
            "fn f() { let o: LStr = mk(); let s: str = o; return; }",
        ),
        (
            "named_owner_capture",
            "fn f() { let o: LStr = mk(); let w: Slot = Slot { s: o.view(), n: 1 }; return; }",
        ),
        (
            "named_owner_field_capture",
            "fn f() { let h: Own = Own { o: mk() }; let w: Slot = Slot { s: h.o.view(), n: 1 }; return; }",
        ),
        ("literal", "fn f() { let s: str = \"lit\"; return; }"),
        (
            "literal_capture",
            "fn f() { let w: Slot = Slot { s: \"lit\", n: 1 }; return; }",
        ),
        (
            "argument_coercion",
            "fn f() -> i32 { return peek(mk()); }",
        ),
        (
            "argument_interpolation",
            "fn f() -> i32 { let n: i32 = 1; return peek(\"x ${n}\"); }",
        ),

        (
            "owned_move_into_owned_field",
            "fn f() { let w: Own = Own { o: mk() }; return; }",
        ),
    ];
    for (name, tail) in clean {
        let codes = check_src(&format!("{LANG_STR_PRELUDE}{COERCE_PRELUDE}{tail}"));
        assert!(
            !codes.iter().any(|c| c == "E0513"),
            "[{name}] must not be denied, got {codes:?}"
        );
    }
}

#[test]
fn view_of_a_named_owner_is_not_the_temporary_rule() {
    let clean: &[(&str, &str)] = &[
        (
            "named_owner",
            "fn peek(x: str) -> i32 { return 0; }\n\
                 fn f() -> i32 { let b: Buf = Buf::new(); let s: str = b.view(); return peek(s); }",
        ),
        (
            "temp_as_argument",
            "fn peek(x: str) -> i32 { return 0; }\n\
                 fn f() -> i32 { return peek(Buf::new().view()); }",
        ),
    ];
    for (name, tail) in clean {
        let codes = check_src(&format!("{VIEW_PRELUDE}{tail}"));
        assert!(
            !codes.iter().any(|c| c == "E0513"),
            "[{name}] must not be denied, got {codes:?}"
        );
    }
}

#[test]
fn view_carrying_struct_literal_to_static_e0513() {
    let codes = check_src(
        "struct Buf { p: *u8 }\n\
             impl Buf { fn drop(ref this) { return; } fn view(this) -> str { return \"x\"; } }\n\
             struct Data { key: str, n: i32 }\n\
             static SLOT: Data = #zero::[Data]();\n\
             fn build() {\n\
                 let owner: Buf = Buf { p: 0 as *u8 };\n\
                 SLOT = Data { key: owner.view(), n: 1 };\n\
                 return;\n\
             }\n\
             fn main() -> i32 { build(); return 0; }",
    );
    assert!(codes.iter().any(|c| c == "E0513"), "static store of view-carrying literal; got {codes:?}");
}

#[test]
fn view_carrying_call_result_to_static_e0513() {
    let codes = check_src(
        "struct Buf { p: *u8 }\n\
             impl Buf { fn drop(ref this) { return; } fn view(this) -> str { return \"x\"; } }\n\
             struct Data { key: str, n: i32 }\n\
             static SLOT: Data = #zero::[Data]();\n\
             fn store(key: str, n: i32) -> Data { return Data { key: key, n: n }; }\n\
             fn build() {\n\
                 let owner: Buf = Buf { p: 0 as *u8 };\n\
                 SLOT = store(owner.view(), 2);\n\
                 return;\n\
             }\n\
             fn main() -> i32 { build(); return 0; }",
    );
    assert!(codes.iter().any(|c| c == "E0513"), "repro shape must reject; got {codes:?}");
}

#[test]
fn view_carrying_whole_struct_to_ref_target_e0513() {
    let codes = check_src(
        "struct Buf { p: *u8 }\n\
             impl Buf { fn drop(ref this) { return; } fn view(this) -> str { return \"x\"; } }\n\
             struct Data { key: str, n: i32 }\n\
             fn put(ref out: Data) {\n\
                 let owner: Buf = Buf { p: 0 as *u8 };\n\
                 out = Data { key: owner.view(), n: 1 };\n\
                 return;\n\
             }\n\
             fn main() -> i32 { var d: Data = Data { key: \"x\", n: 0 }; put(d); return 0; }",
    );
    assert!(codes.iter().any(|c| c == "E0513"), "ref-target whole-struct store; got {codes:?}");
}

#[test]
fn view_carrying_alias_return_e0513() {
    let codes = check_src(
        "struct Buf { p: *u8 }\n\
             impl Buf { fn drop(ref this) { return; } fn view(this) -> str { return \"x\"; } }\n\
             struct Data { key: str, n: i32 }\n\
             fn store(key: str, n: i32) -> Data { return Data { key: key, n: n }; }\n\
             fn make() -> Data {\n\
                 let owner: Buf = Buf { p: 0 as *u8 };\n\
                 let d: Data = store(owner.view(), 1);\n\
                 return d;\n\
             }\n\
             fn main() -> i32 { let d: Data = make(); return d.n; }",
    );
    assert!(codes.iter().any(|c| c == "E0513"), "alias return of rooted carrier; got {codes:?}");
}

#[test]
fn builtin_str_method_chain_return_e0513() {
    let codes = check_src(
        "impl str {\n\
                 fn second(this) -> str {\n\
                     let p: *u8 = { #str_ptr(this) + (1 as usize) };\n\
                     return { #str_from_raw_parts(p, #str_len(this) -% (1 as usize)) };\n\
                 }\n\
             }\n\
             struct Buf { p: *u8 }\n\
             impl Buf { fn drop(ref this) { return; } fn view(this) -> str { return \"xy\"; } }\n\
             fn peek() -> str {\n\
                 let owner: Buf = Buf { p: 0 as *u8 };\n\
                 let v: str = owner.view();\n\
                 return v.second();\n\
             }\n\
             fn main() -> i32 { return #str_len(peek()) as i32; }",
    );
    assert!(codes.iter().any(|c| c == "E0513"), "builtin sub-view chain return; got {codes:?}");
}

#[test]
fn view_of_a_matched_out_owner_denied_e0513() {
    let codes = check_src(&format!(
        "{VIEW_PRELUDE}enum Opt {{ S(Buf), N }}\n\
             fn take_it() -> Opt {{ return Opt::S(Buf::new()); }}\n\
             fn bad() -> str {{ match take_it() {{ Opt::S(b) => {{ return b.view(); }} \
             Opt::N => {{ return \"zz\"; }} }} }}"
    ));
    assert!(
        codes.iter().any(|c| c == "E0513"),
        "expected E0513 on a view of a matched-out owner, got {codes:?}"
    );
}

#[test]
fn view_of_a_payload_borrowed_from_a_field_stays_clean() {
    let codes = check_src(&format!(
        "{VIEW_PRELUDE}enum Opt {{ S(Buf), N }}\n\
             struct Box2 {{ o: Opt }}\n\
             impl Box2 {{ fn get(this) -> str {{ match this.o {{ Opt::S(b) => {{ return b.view(); }} \
             Opt::N => {{ return \"zz\"; }} }} }} }}"
    ));
    assert!(
        !codes.iter().any(|c| c == "E0513"),
        "a payload borrowed from a field must not be denied, got {codes:?}"
    );
}

#[test]
fn view_escaping_through_a_tuple_or_an_index_denied_e0513() {
    let cases: &[(&str, &str)] = &[
        (
            "tuple_leaf",
            "fn bad() -> (str, i32) { let b: Buf = Buf::new(); return (b.view(), 1); }",
        ),
        (
            "tuple_alias",
            "fn bad2() -> (str, i32) { let b: Buf = Buf::new(); let s: str = b.view(); \
                 return (s, 1); }",
        ),
        (
            "static_element",
            "static A: [str; 2] = [\"\", \"\"];\n\
                 fn bad3() { let b: Buf = Buf::new(); A[0] = b.view(); return; }",
        ),
    ];
    for (name, tail) in cases {
        let codes = check_src(&format!("{VIEW_PRELUDE}{tail}"));
        assert!(
            codes.iter().any(|c| c == "E0513"),
            "[{name}] expected E0513, got {codes:?}"
        );
    }
}

const CAPTURE_PRELUDE: &str = "struct Child { clicks: i32 }\n\
         impl Child {\n\
           fn clicked(ref this) { this.clicks = this.clicks + 1; return; }\n\
           fn build(ref this) -> i32 { return take_handler(this.clicked); }\n\
         }\n\
         fn take_handler(f: fn(*u8), ctx: *u8 = 0 as *u8) -> i32 { return 1; }\n\
         fn sink(v: i32) { return; }\n\
         static SLOT: i32 = 0;\n";

const COPY_CAPTURE_PRELUDE: &str = "struct Ro { n: i32 }\n\
         impl Ro {\n\
           fn tap(this) { return; }\n\
           fn build(this) -> i32 { return take_handler(this.tap); }\n\
         }\n\
         struct Heavy { n: i32 }\n\
         impl Heavy {\n\
           fn drop(ref this) { return; }\n\
           fn htap(this) { return; }\n\
           fn hbuild(this) -> i32 { return take_handler(this.htap); }\n\
         }\n\
         fn take_handler(f: fn(*u8), ctx: *u8 = 0 as *u8) -> i32 { return 1; }\n";

#[test]
fn returned_capture_of_a_local_denied_e0365() {
    let cases: &[(&str, &str)] = &[
        (
            "direct",
            "fn make() -> i32 { var c: Child = Child { clicks: 0 }; \
                 return take_handler(c.clicked); }",
        ),
        (
            "transitive",
            "fn make() -> i32 { var c: Child = Child { clicks: 0 }; return c.build(); }",
        ),
        (
            "through_a_builder_local",
            "struct Bag { n: i32 }\n\
                 impl Bag {\n\
                   fn new() -> Bag { return Bag { n: 0 }; }\n\
                   fn add(ref this, v: i32) { this.n = this.n + v; return; }\n\
                 }\n\
                 fn wrap(b: Bag) -> i32 { return b.n; }\n\
                 fn make() -> i32 { var bag: Bag = Bag::new(); \
                 var c: Child = Child { clicks: 0 }; bag.add(c.build()); return wrap(bag); }",
        ),
    ];
    for (name, tail) in cases {
        let codes = check_src(&format!("{CAPTURE_PRELUDE}{tail}"));
        assert!(
            codes.iter().any(|c| c == "E0365"),
            "[{name}] expected E0365, got {codes:?}"
        );
    }
}

#[test]
fn returned_capture_through_a_transitively_capturing_method_denied_e0365() {
    let codes = check_src(
        "struct Child { clicks: i32 }\n\
             impl Child {\n\
               fn clicked(ref this) { this.clicks = this.clicks + 1; return; }\n\
               fn inner(ref this) -> i32 { return take_handler(this.clicked); }\n\
               fn outer(ref this) -> i32 { return this.inner(); }\n\
             }\n\
             fn take_handler(f: fn(*u8), ctx: *u8 = 0 as *u8) -> i32 { return 1; }\n\
             fn make() -> i32 { var c: Child = Child { clicks: 0 }; return c.outer(); }",
    );
    assert!(
        codes.iter().any(|c| c == "E0365"),
        "expected E0365 through the transitive capture, got {codes:?}"
    );
}

#[test]
fn stored_capture_of_a_local_denied_e0365() {
    let cases: &[(&str, &str)] = &[
        (
            "static_direct",
            "fn stash() { var c: Child = Child { clicks: 0 }; \
                 SLOT = take_handler(c.clicked); return; }",
        ),
        (
            "static_transitive",
            "fn stash() { var c: Child = Child { clicks: 0 }; SLOT = c.build(); return; }",
        ),
        (
            "ref_param",
            "fn stash(ref out: i32) { var c: Child = Child { clicks: 0 }; \
                 out = take_handler(c.clicked); return; }",
        ),
    ];
    for (name, tail) in cases {
        let codes = check_src(&format!("{CAPTURE_PRELUDE}{tail}"));
        assert!(
            codes.iter().any(|c| c == "E0365"),
            "[{name}] expected E0365, got {codes:?}"
        );
    }
}

#[test]
fn stored_capture_that_outlives_nothing_stays_clean() {
    let clean: &[(&str, &str)] = &[
        (
            "local_destination",
            "fn build_it() { var c: Child = Child { clicks: 0 }; \
                 var n: i32 = 0; n = take_handler(c.clicked); return; }",
        ),
        (
            "bound_to_this_into_a_static",
            "impl Child { fn stash(ref this) { SLOT = take_handler(this.clicked); return; } }",
        ),
    ];
    for (name, tail) in clean {
        let codes = check_src(&format!("{CAPTURE_PRELUDE}{tail}"));
        assert!(
            !codes.iter().any(|c| c == "E0365"),
            "[{name}] must not be denied, got {codes:?}"
        );
    }
}

#[test]
fn a_capture_of_a_by_value_copy_parameter_is_denied_e0365() {
    let cases: &[(&str, &str, bool)] = &[
        (
            "copy_by_value",
            "fn steal(c: Ro) -> i32 { return c.build(); }",
            true,
        ),
        (
            "copy_take",
            "fn steal2(take c: Ro) -> i32 { return c.build(); }",
            true,
        ),
        (
            "copy_ref",
            "fn steal3(ref c: Ro) -> i32 { return c.build(); }",
            true,
        ),
        (
            "non_copy_by_value",
            "fn borrowed(h: Heavy) -> i32 { return h.hbuild(); }",
            false,
        ),
        (
            "this_receiver_is_not_widened",
            "impl Ro { fn keepit(this) -> i32 { return this.build(); } }",
            false,
        ),
    ];
    for (name, tail, denied) in cases {
        let codes = check_src(&format!("{COPY_CAPTURE_PRELUDE}{tail}"));
        assert_eq!(
            codes.iter().any(|c| c == "E0365"),
            *denied,
            "[{name}] expected denied={denied}, got {codes:?}"
        );
    }
}

#[test]
fn a_capture_handed_to_a_call_is_denied_e0365() {
    let codes = check_src(&format!(
        "{CAPTURE_PRELUDE}fn hand_over() {{ var c: Child = Child {{ clicks: 0 }}; \
             sink(take_handler(c.clicked)); return; }}"
    ));
    assert!(
        codes.iter().any(|c| c == "E0365"),
        "expected E0365 on the call argument, got {codes:?}"
    );
}

#[test]
fn an_enum_payload_is_judged_at_its_own_sink_not_at_the_constructor() {
    let prelude = format!("{CAPTURE_PRELUDE}enum Holder2 {{ Some2(i32), None2 }}\n");
    let codes = check_src(&format!(
        "{prelude}fn make() -> i32 {{ var c: Child = Child {{ clicks: 0 }}; \
             var h: Holder2 = Holder2::Some2(c.build()); return 0; }}"
    ));
    assert!(
        !codes.iter().any(|c| c == "E0365"),
        "a payload that dies with the frame must not be denied, got {codes:?}"
    );
    let codes = check_src(&format!(
        "{prelude}fn make() -> Holder2 {{ var c: Child = Child {{ clicks: 0 }}; \
             return Holder2::Some2(c.build()); }}"
    ));
    assert!(
        codes.iter().any(|c| c == "E0365"),
        "a returned payload still escapes, got {codes:?}"
    );
}

#[test]
fn a_capture_of_caller_owned_storage_handed_to_a_call_stays_clean() {
    let codes = check_src(&format!(
        "{CAPTURE_PRELUDE}impl Child {{ fn hand(ref this) {{ \
             sink(take_handler(this.clicked)); return; }} }}"
    ));
    assert!(
        !codes.iter().any(|c| c == "E0365"),
        "a handler bound to `this` must not be denied, got {codes:?}"
    );
}

#[test]
fn returned_capture_of_storage_that_outlives_the_frame_stays_clean() {
    let clean: &[(&str, &str)] = &[
        (
            "bound_to_this",
            "impl Child { fn mk(ref this) -> i32 { return take_handler(this.clicked); } }",
        ),
        (
            "child_in_a_field",
            "struct Parent { child: Child }\n\
                 impl Parent { fn build(ref this) -> i32 { return this.child.build(); } }",
        ),
        (
            "static_receiver",
            "static GLOBAL_CHILD: Child = Child { clicks: 0 };\n\
                 fn make() -> i32 { return GLOBAL_CHILD.build(); }",
        ),
        (
            "binding_site_result_is_trusted",
            "fn make() -> i32 { var c: Child = Child { clicks: 0 }; \
                 var n: i32 = take_handler(c.clicked); return n; }",
        ),
        (

            "child_binds_no_handler",
            "struct Quiet { n: i32 }\n\
                 impl Quiet {\n\
                   fn new() -> Quiet { return Quiet { n: 1 }; }\n\
                   fn build(ref this) -> i32 { return this.n; }\n\
                 }\n\
                 struct Bag { n: i32 }\n\
                 impl Bag {\n\
                   fn new() -> Bag { return Bag { n: 0 }; }\n\
                   fn add(ref this, v: i32) { this.n = this.n + v; return; }\n\
                 }\n\
                 fn wrap(b: Bag) -> i32 { return b.n; }\n\
                 fn make() -> i32 { var bag: Bag = Bag::new(); var q: Quiet = Quiet::new(); \
                 bag.add(q.build()); return wrap(bag); }",
        ),
    ];
    for (name, tail) in clean {
        let codes = check_src(&format!("{CAPTURE_PRELUDE}{tail}"));
        assert!(
            !codes.iter().any(|c| c == "E0365"),
            "[{name}] must not be denied, got {codes:?}"
        );
    }
}

#[test]
fn from_parse_chainable_cmp() {
    let src = "fn main() -> i32 { 1 < 2 < 3 }";
    let err = parse(src).err().expect("error");
    let lm = LineMap::new(src);
    let d = from_parse(&err, "test.cplus", &lm, src);
    assert_eq!(d.code, DiagCode("E0102"));
}

#[test]
fn from_parse_missing_semi_suggests_fix() {
    let src = "fn main() -> i32 { let x = 1 0 }";
    let err = parse(src).err().expect("error");
    let lm = LineMap::new(src);
    let d = from_parse(&err, "test.cplus", &lm, src);
    assert_eq!(d.code, DiagCode("E0100"));
    assert_eq!(d.suggestions.len(), 1);
    assert_eq!(d.suggestions[0].replacement, ";");
}

// ---- whole programs ----

const BOX: &str = "struct B { x: i32 }\nimpl B { fn drop(ref this) { return; } }\n";

fn with_box(rest: &str) -> String {
    format!("{BOX}{rest}")
}

#[test]
fn reports_are_shown_in_the_file_their_item_comes_from() {
    let src = with_box("fn eat(take b: B) { return; }\nfn both(ref a: B, ref b: B) { return; }\nfn f(c: i32) {\n  let a: B = B { x: 1 };\n  both(a, a);\n}");
    let lib = format!("\n\n{src}");
    let mut prog = parse_prog(&src);
    let alone = check(&prog, "t.cplus", &src);
    assert_eq!(alone.len(), 1);
    assert_eq!(alone[0].code, DiagCode("E0380"));
    assert_eq!(alone[0].primary.file, "t.cplus");
    assert_eq!(alone[0].primary.start.line, 7);

    let mut files: OrdMap<String, SourceFile> = OrdMap::new();
    files.insert("lib".to_string(), SourceFile { path: "lib.cplus".to_string(), text: lib });
    let same = check_multi(&prog, "t.cplus", &src, &files);
    assert_eq!(same, alone);

    for item in prog.items.iter_mut() {
        item.origin_file = Some("lib".to_string());
    }
    let moved = check_multi(&prog, "t.cplus", &src, &files);
    assert_eq!(moved.len(), 1);
    assert_eq!(moved[0].code, alone[0].code);
    assert_eq!(moved[0].message, alone[0].message);
    assert_eq!(moved[0].primary.file, "lib.cplus");

    for item in prog.items.iter_mut() {
        item.origin_file = Some("unknown".to_string());
    }
    assert_eq!(check_multi(&prog, "t.cplus", &src, &files), alone);
}

#[test]
fn states_are_recorded_at_every_point_of_every_function_in_name_order() {
    let src = with_box("fn z(take b: B) { let n: i32 = 1; }\nfn a() { }");
    assert_eq!(
        analyze_src(&src),
        "fn B.drop:\n  entry: {self=Owned}\n  after stmt 0: {self=Owned}\n  exit: {self=Owned}\nfn a:\n  entry: {}\n  exit: {}\nfn z:\n  entry: {b=Owned}\n  after stmt 0: {b=Owned, n=Owned}\n  exit: {b=Owned, n=Owned}\n"
    );
}

#[test]
fn a_copy_stays_owned_and_a_move_takes_the_source() {
    let dump = analyze_src(&with_box(
        "fn eat(take b: B) { return; }\nfn num(take n: i32) { return; }\nfn f() {\n  let b: B = B { x: 1 };\n  let n: i32 = 2;\n  num(n);\n  eat(b);\n}",
    ));
    assert!(dump.contains("after stmt 2: {b=Owned, n=Owned}"), "{dump}");
    assert!(dump.contains("after stmt 3: {b=Moved, n=Owned}"), "{dump}");
}

#[test]
fn a_move_in_a_loop_or_on_one_path_leaves_doubt() {
    let looped = analyze_src(&with_box(
        "fn eat(take b: B) { return; }\nfn f(c: bool) {\n  let b: B = B { x: 1 };\n  while c { eat(b); }\n}",
    ));
    assert!(looped.contains("after stmt 1: {b=MaybePartial, c=Owned}"), "{looped}");
    let branched = analyze_src(&with_box(
        "fn eat(take b: B) { return; }\nfn f(c: bool) {\n  let b: B = B { x: 1 };\n  if c { eat(b); } else { }\n}",
    ));
    assert!(branched.contains("b=MaybePartial"), "{branched}");
    let codes = check_src(&with_box(
        "fn eat(take b: B) { return; }\nfn f(c: bool) {\n  let b: B = B { x: 1 };\n  while c { eat(b); }\n  eat(b);\n}",
    ));
    assert!(codes.iter().any(|c| c == "E0371"), "{codes:?}");
}

#[test]
fn a_borrowed_binding_is_not_moved_or_written_in_silence() {
    let codes = check_src(&with_box(
        "fn see(b: B) -> B { return b; }\nfn eat(take b: B) { return; }\nfn f() {\n  let a: B = B { x: 1 };\n  let r: B = see(a);\n  eat(a);\n  let n: i32 = r.x;\n}",
    ));
    assert!(codes.iter().any(|c| c == "E0372"), "{codes:?}");
}

#[test]
fn a_conflict_between_claims_takes_the_place_of_reads() {
    let codes = check_src(&with_box(
        "fn both(ref a: B, take b: B) { return; }\nfn f() {\n  let a: B = B { x: 1 };\n  both(a, a);\n}",
    ));
    assert_eq!(codes, vec!["E0382".to_string()]);
}

fn ty(kind: TypeKind) -> Type {
    Type { kind, span: Span::new(0, 0) }
}

#[test]
fn an_undeclared_name_is_not_known_to_be_copied() {
    let oracle = CopyOracle::build(&parse_prog("struct P { x: i32 }\nfn f() { return; }"));
    assert!(!oracle.is_copy(&ty(TypeKind::Path("Mystery".into()))));
    assert!(!oracle.is_copy(&ty(TypeKind::Array { elem: Box::new(ty(TypeKind::Path("Mystery".into()))), len: 3 })));
    assert!(oracle.is_copy(&ty(TypeKind::Path("P".into()))));
    assert!(oracle.is_copy(&ty(TypeKind::Path("str".into()))));
    assert!(oracle.is_copy(&ty(TypeKind::Slice(Box::new(ty(TypeKind::Path("Mystery".into())))))));
}

#[test]
fn a_name_is_found_anywhere_in_a_type_but_in_a_function_pointer() {
    let t = || ty(TypeKind::Path("T".into()));
    let int = || ty(TypeKind::Path("i32".into()));
    let names = vec!["T".to_string()];
    let has = |kind: TypeKind| type_mentions_name(&ty(kind), &names);
    assert!(has(TypeKind::Tuple(vec![t(), int()])));
    assert!(has(TypeKind::Tuple(vec![int(), ty(TypeKind::Tuple(vec![t()]))])));
    assert!(!has(TypeKind::Tuple(vec![int(), int()])));
    assert!(has(TypeKind::Generic { name: "Box".into(), args: vec![int(), t()] }));
    assert!(has(TypeKind::RawPtr(Box::new(t()))));
    assert!(!has(TypeKind::FnPtr { params: vec![t()], param_takes: vec![false], param_refs: vec![false], ret: None }));
    assert!(!type_mentions_name(&ty(TypeKind::Tuple(vec![t()])), &vec![]));
}

fn finding(origin: Option<&str>, code: &'static str, span: Span) -> Finding {
    Finding {
        origin: origin.map(|o| o.to_string()),
        diag: RawDiag { code, message: "m".to_string(), primary: span, suggestion: None, label: None },
    }
}

#[test]
fn a_read_gives_way_only_to_a_claim_at_its_place_in_its_file() {
    let at = Span::new(5, 6);
    let kept = |second: Finding| dedupe_conflicts_at_one_span(&vec![finding(Some("a"), "E0381", at), second]).len();
    assert_eq!(kept(finding(Some("a"), "E0383", at)), 1);
    assert_eq!(kept(finding(Some("b"), "E0383", at)), 2);
    assert_eq!(kept(finding(None, "E0383", at)), 2);
    assert_eq!(kept(finding(Some("a"), "E0383", Span::new(5, 7))), 2);
    assert_eq!(kept(finding(Some("a"), "E0513", at)), 2);
}

fn flows_of(src: &str) -> SigTable {
    let prog = parse_prog(src);
    let oracle = CopyOracle::build(&prog);
    let mut sigs = SigTable::collect(&prog, &oracle);
    compute_receiver_flows(&prog, &mut sigs);
    sigs
}

#[test]
fn a_flow_is_found_through_any_number_of_methods() {
    let mut body = String::new();
    for i in 0..20 {
        body.push_str(&format!("  fn m{i}(ref this, k: str) {{ this.m{}(k); return; }}\n", i + 1));
    }
    let src = format!(
        "struct B {{ x: i32 }}\nimpl B {{\n  fn drop(ref this) {{ return; }}\n  fn view(this) -> str {{ return \"\"; }}\n}}\nstruct H {{ view: str }}\nimpl H {{\n{body}  #[keeps(this)]\n  fn m20(ref this, k: str) {{ this.view = k; return; }}\n}}\nfn caller() {{\n  var h: H = H {{ view: \"\" }};\n  {{\n    let t: B = B {{ x: 1 }};\n    h.m0(t.view());\n  }}\n  return;\n}}"
    );
    let sigs = flows_of(&src);
    for i in 0..20 {
        assert_eq!(sigs.methods.get(&format!("H.m{i}")).expect("entry").computed_keeps, vec![true], "m{i}");
    }
    let codes = check_src(&src);
    assert!(codes.iter().any(|c| c == "E0514"), "{codes:?}");
}

#[test]
fn flows_follow_what_a_callee_returns_wherever_it_stands() {
    let pick = "fn pick(a: str, b: str) -> str { return a; }";
    let outer = "fn outer(a: str, b: str) -> str { return pick(a, b); }";
    let holder = "struct H { v: str }\nimpl H { fn set(ref this, a: str, b: str) { this.v = pick(a, b); return; } }";
    for src in [
        format!("{pick}\n{outer}\n{holder}"),
        format!("{holder}\n{outer}\n{pick}"),
    ] {
        let sigs = flows_of(&src);
        assert_eq!(sigs.fns.get("outer").expect("entry").computed_ret_flow, Some(1));
        assert_eq!(sigs.fns.get("pick").expect("entry").computed_ret_flow, Some(1));
        assert_eq!(sigs.methods.get("H.set").expect("entry").computed_keeps, vec![true, false]);
    }
}

#[test]
fn flows_into_ref_parameters_are_listed_by_target_and_source() {
    let sigs = flows_of(
        "struct H { v: str }\nfn fill(a: str, b: str, ref g: H, ref h: H) { h.v = a; h.v = b; g.v = b; return; }",
    );
    let e = sigs.fns.get("fill").expect("entry");
    assert!(e.computed_ref_flows.contains(&(1, 2)), "{:?}", e.computed_ref_flows);
    for w in e.computed_ref_flows.windows(2) {
        assert!((w[0].1, w[0].0) < (w[1].1, w[1].0), "{:?}", e.computed_ref_flows);
    }
}

#[test]
fn a_copying_callee_ties_nothing_to_its_caller() {
    let sigs = flows_of(
        "struct H { v: str }\nimpl H { fn set(ref this, k: str) { this.v = name_of(k); return; } }\nfn name_of(k: str) -> str { return \"x\"; }",
    );
    assert_eq!(sigs.fns.get("name_of").expect("entry").computed_ret_flow, Some(0));
    let keeps = &sigs.methods.get("H.set").expect("entry").computed_keeps;
    assert!(!keeps.contains(&true), "{keeps:?}");
}

#[test]
fn the_order_of_the_items_does_not_matter_to_the_oracle() {
    let items = [
        "struct B { x: i32 }",
        "impl B { fn drop(ref this) { return; } }",
        "struct Outer { b: B }",
        "struct View { s: str }",
        "struct Holder { v: View }",
        "enum E { A, V(Outer) }",
        "struct Plain { n: i32 }",
    ];
    let mut reversed = items.to_vec();
    reversed.reverse();
    let a = CopyOracle::build(&parse_prog(&items.join("\n")));
    let b = CopyOracle::build(&parse_prog(&reversed.join("\n")));
    for name in ["B", "Outer", "View", "Holder", "E", "Plain", "Mystery", "str"] {
        let t = ty(TypeKind::Path(name.into()));
        assert_eq!(a.is_copy(&t), b.is_copy(&t), "{name}");
        assert_eq!(a.definitely_non_copy(&t), b.definitely_non_copy(&t), "{name}");
        assert_eq!(a.type_has_drop(&t), b.type_has_drop(&t), "{name}");
        assert_eq!(a.type_contains_view(&t), b.type_contains_view(&t), "{name}");
    }
    let e = ty(TypeKind::Path("E".into()));
    assert!(a.definitely_non_copy(&e) && a.type_has_drop(&e));
    assert!(a.type_contains_view(&ty(TypeKind::Path("Holder".into()))));
}

#[test]
fn an_address_is_taken_where_a_name_stands_as_a_value() {
    let called = "fn g() { return; }\nfn f() { g(); return; }";
    let taken = |src: &str, name: &str| fns_with_address_taken(&parse_prog(src)).contains(name);
    assert!(!taken(called, "g"));
    assert!(!taken(called, "f"));
    let more = format!("{called}\nfn h() {{ let p: fn() = g; return; }}");
    assert!(taken(&more, "g"));
    assert!(!taken(&more, "f"));
    let further = format!("{more}\nfn k() {{ let q: fn() = f; return; }}");
    assert!(taken(&further, "g"));
    assert!(taken(&further, "f"));
}

#[test]
fn a_value_of_a_generic_parameter_is_handed_out_without_a_report() {
    let src = "\
struct Named[T] { name: str, val: T }
fn named[T](k: str, take v: T) -> Named[T] {
  let n: Named[T] = Named[T] { name: k, val: v };
  return n;
}";
    assert_eq!(check_src(src), Vec::<String>::new());
}

#[test]
fn an_alias_of_a_view_is_handed_out_without_a_report() {
    let src = "type Name = str;\nfn f(k: str) -> str { let n: Name = k; return n; }";
    assert_eq!(check_src(src), Vec::<String>::new());
}

#[test]
fn a_type_that_is_not_declared_may_be_copied() {
    let oracle = CopyOracle::build(&parse_prog(
        "struct B { x: i32 }\nimpl B { fn drop(ref this) { return; } }\nstruct W { m: Mystery }",
    ));
    let named = |n: &str| ty(TypeKind::Path(n.into()));
    assert!(oracle.may_be_copied(&named("Mystery")));
    assert!(!oracle.is_copy(&named("Mystery")));
    assert!(oracle.may_be_copied(&named("W")));
    assert!(oracle.is_copy(&named("W")));
    assert!(oracle.may_be_copied(&named("str")));
    assert!(!oracle.may_be_copied(&named("B")));
    assert!(!oracle.may_be_copied(&ty(TypeKind::Generic { name: "Mystery".into(), args: vec![named("i32")] })));
}

#[test]
fn an_address_is_taken_in_a_range_and_in_a_checked_cast() {
    let ranged = "fn g() { return; }\nfn f() { let r: i32 = 0..g; return; }";
    assert!(fns_with_address_taken(&parse_prog(ranged)).contains("g"));
    let mut prog = parse_prog("fn g() { return; }\nfn f() { let p: i32 = g; return; }");
    if let ItemKind::Function(f) = &mut prog.items[1].kind {
        if let StmtKind::Let { init, .. } = &mut f.body.stmts[0].kind {
            let inner = init.take().expect("init");
            let span = inner.span;
            let kind = ExprKind::CastChecked { expr: Box::new(inner), ty: ty(TypeKind::Path("i32".into())) };
            *init = Some(Expr { kind, span });
        }
    }
    assert!(fns_with_address_taken(&prog).contains("g"));
}
