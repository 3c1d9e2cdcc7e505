//! The syntax tree of a program.
use vstd::prelude::*;
use crate::text::str_eq;

verus! {

/// A half-open range of byte offsets into a source text.
#[derive(Debug, Clone, Copy, PartialEq, Eq, Structural)]
pub struct Span {
    pub start: u32,
    pub end: u32,
}

impl Span {
    pub fn new(start: u32, end: u32) -> (r: Span)
        ensures
            r == (Span { start, end }),
    {
        Span { start, end }
    }

    /// The smallest span that covers both.
    pub open spec fn merge_spec(self, other: Span) -> Span {
        Span {
            start: if self.start <= other.start { self.start } else { other.start },
            end: if self.end >= other.end { self.end } else { other.end },
        }
    }

    pub fn merge(self, other: Span) -> (r: Span)
        ensures
            r == self.merge_spec(other),
    {
        Span {
            start: if self.start <= other.start { self.start } else { other.start },
            end: if self.end >= other.end { self.end } else { other.end },
        }
    }
}

pub struct Ident {
    pub name: String,
    pub span: Span,
}

/// A type as written in the program.
pub struct Type {
    pub kind: TypeKind,
    pub span: Span,
}

pub enum TypeKind {
    /// A named type: a primitive, a struct, an enum or a generic parameter.
    Path(String),
    /// A generic type applied to its arguments.
    Generic { name: String, args: Vec<Type> },
    /// A view of consecutive elements that live elsewhere.
    Slice(Box<Type>),
    /// Elements stored in place.
    Array { elem: Box<Type>, len: u64 },
    RawPtr(Box<Type>),
    /// A function pointer; each parameter may be marked `take` or `ref`.
    FnPtr { params: Vec<Type>, param_takes: Vec<bool>, param_refs: Vec<bool>, ret: Option<Box<Type>> },
    Tuple(Vec<Type>),
}

/// What a [`Type`] says, with names as character sequences.
pub struct TypeV {
    pub kind: TypeKindV,
    pub span: Span,
}

pub enum TypeKindV {
    Path(Seq<char>),
    Generic { name: Seq<char>, args: Seq<TypeV> },
    Slice(Box<TypeV>),
    Array { elem: Box<TypeV>, len: u64 },
    RawPtr(Box<TypeV>),
    FnPtr { params: Seq<TypeV>, param_takes: Seq<bool>, param_refs: Seq<bool>, ret: Option<Box<TypeV>> },
    Tuple(Seq<TypeV>),
}

pub open spec fn type_view(t: Type) -> TypeV
    decreases t,
{
    TypeV {
        kind: match t.kind {
            TypeKind::Path(p) => TypeKindV::Path(p@),
            TypeKind::Generic { name, args } => TypeKindV::Generic { name: name@, args: types_view(args@) },
            TypeKind::Slice(inner) => TypeKindV::Slice(Box::new(type_view(*inner))),
            TypeKind::Array { elem, len } => TypeKindV::Array { elem: Box::new(type_view(*elem)), len },
            TypeKind::RawPtr(inner) => TypeKindV::RawPtr(Box::new(type_view(*inner))),
            TypeKind::FnPtr { params, param_takes, param_refs, ret } => TypeKindV::FnPtr {
                params: types_view(params@),
                param_takes: param_takes@,
                param_refs: param_refs@,
                ret: match ret {
                    Some(r) => Some(Box::new(type_view(*r))),
                    None => None,
                },
            },
            TypeKind::Tuple(elems) => TypeKindV::Tuple(types_view(elems@)),
        },
        span: t.span,
    }
}

pub open spec fn types_view(ts: Seq<Type>) -> Seq<TypeV>
    decreases ts,
{
    Seq::new(
        ts.len(),
        |i: int|
            if 0 <= i < ts.len() {
                type_view(ts[i])
            } else {
                arbitrary()
            },
    )
}

/// The view of a list of types is the list of their views.
pub broadcast proof fn lemma_types_view(ts: Seq<Type>)
    ensures
        (#[trigger] types_view(ts)).len() == ts.len(),
        forall|i: int| 0 <= i < ts.len() ==> #[trigger] types_view(ts)[i] == type_view(ts[i]),
{
    reveal_with_fuel(types_view, 2);
    reveal_with_fuel(type_view, 2);
    assert forall|i: int| 0 <= i < ts.len() implies #[trigger] types_view(ts)[i] == type_view(ts[i]) by {
        let t = ts[i];
        assert(types_view(ts)[i] == type_view(t));
    }
}

impl View for Type {
    type V = TypeV;

    open spec fn view(&self) -> TypeV {
        type_view(*self)
    }
}

impl DeepView for Type {
    type V = TypeV;

    open spec fn deep_view(&self) -> TypeV {
        type_view(*self)
    }
}

impl Clone for Type {
    fn clone(&self) -> (r: Type)
        ensures
            r@ == self@,
        decreases self,
    {
        let kind = match &self.kind {
            TypeKind::Path(p) => TypeKind::Path(p.clone()),
            TypeKind::Generic { name, args } => TypeKind::Generic { name: name.clone(), args: clone_types(args) },
            TypeKind::Slice(inner) => TypeKind::Slice(Box::new((**inner).clone())),
            TypeKind::Array { elem, len } => TypeKind::Array { elem: Box::new((**elem).clone()), len: *len },
            TypeKind::RawPtr(inner) => TypeKind::RawPtr(Box::new((**inner).clone())),
            TypeKind::FnPtr { params, param_takes, param_refs, ret } => TypeKind::FnPtr {
                params: clone_types(params),
                param_takes: param_takes.clone(),
                param_refs: param_refs.clone(),
                ret: match ret {
                    Some(r) => Some(Box::new((**r).clone())),
                    None => None,
                },
            },
            TypeKind::Tuple(elems) => TypeKind::Tuple(clone_types(elems)),
        };
        Type { kind, span: self.span }
    }
}

pub fn clone_types(ts: &Vec<Type>) -> (r: Vec<Type>)
    ensures
        types_view(r@) == types_view(ts@),
        r@.len() == ts@.len(),
    decreases ts,
{
    let mut out: Vec<Type> = Vec::new();
    let mut i: usize = 0;
    while i < ts.len()
        invariant
            i <= ts@.len(),
            out@.len() == i,
            forall|j: int| 0 <= j < i ==> (#[trigger] type_view(out@[j])) == type_view(ts@[j]),
        decreases ts@.len() - i,
    {
        let c = ts[i].clone();
        out.push(c);
        i += 1;
    }
    proof {
        lemma_types_view(out@);
        lemma_types_view(ts@);
        assert(types_view(out@) =~= types_view(ts@));
    }
    out
}

/// An attribute such as `#[lang("string")]`.
pub struct Attribute {
    pub path: Ident,
    pub args: Vec<AttrArg>,
}

pub enum AttrArg {
    Ident(Ident),
    Str(String, Span),
}

/// Whether the attributes hold `#[keeps(what)]`.
pub open spec fn keeps(attributes: Seq<Attribute>, what: Seq<char>) -> bool {
    exists|i: int| 0 <= i < attributes.len() && attribute_keeps(#[trigger] attributes[i], what)
}

pub open spec fn attribute_keeps(a: Attribute, what: Seq<char>) -> bool {
    a.path.name@ == "keeps"@ && exists|j: int|
        0 <= j < a.args@.len() && attr_arg_names(#[trigger] a.args@[j], what)
}

pub open spec fn attr_arg_names(arg: AttrArg, what: Seq<char>) -> bool {
    match arg {
        AttrArg::Ident(id) => id.name@ == what,
        AttrArg::Str(..) => false,
    }
}

pub fn has_keeps(attributes: &Vec<Attribute>, what: &str) -> (r: bool)
    ensures
        r == keeps(attributes@, what@),
{
    let mut i: usize = 0;
    while i < attributes.len()
        invariant
            i <= attributes@.len(),
            forall|k: int| 0 <= k < i ==> !attribute_keeps(#[trigger] attributes@[k], what@),
        decreases attributes@.len() - i,
    {
        let a = &attributes[i];
        if str_eq(a.path.name.as_str(), "keeps") {
            let mut j: usize = 0;
            while j < a.args.len()
                invariant
                    i < attributes@.len(),
                    *a == attributes@[i as int],
                    a.path.name@ == "keeps"@,
                    j <= a.args@.len(),
                    forall|k: int| 0 <= k < j ==> !attr_arg_names(#[trigger] a.args@[k], what@),
                decreases a.args@.len() - j,
            {
                if let AttrArg::Ident(id) = &a.args[j] {
                    if str_eq(id.name.as_str(), what) {
                        assert(attr_arg_names(a.args@[j as int], what@));
                        assert(attribute_keeps(attributes@[i as int], what@));
                        return true;
                    }
                }
                j += 1;
            }
        }
        i += 1;
    }
    false
}

pub struct GenericParam {
    pub name: Ident,
}

pub struct Param {
    pub name: Ident,
    pub ty: Type,
    /// Marked `ref`: passed by exclusive reference.
    pub mutable: bool,
    /// Marked `take`: consumed by the call.
    pub move_: bool,
}

/// How a method takes its receiver.
#[derive(Debug, Clone, Copy, PartialEq, Eq, Structural)]
pub enum Receiver {
    Read,
    Mut,
    Move,
}

pub struct Function {
    pub name: Ident,
    pub generic_params: Vec<GenericParam>,
    pub params: Vec<Param>,
    pub return_type: Option<Type>,
    pub body: Block,
    pub attributes: Vec<Attribute>,
    /// Defined outside the program.
    pub is_foreign: bool,
    /// Declared without a body.
    pub is_declaration: bool,
}

pub struct FieldDecl {
    pub name: Ident,
    pub ty: Type,
    pub is_opaque: bool,
}

pub struct StructDecl {
    pub name: Ident,
    pub generic_params: Vec<GenericParam>,
    pub fields: Vec<FieldDecl>,
    pub attributes: Vec<Attribute>,
}

pub struct VariantDecl {
    pub name: Ident,
    pub payload: Vec<Type>,
}

pub struct EnumDecl {
    pub name: Ident,
    pub generic_params: Vec<GenericParam>,
    pub variants: Vec<VariantDecl>,
}

pub struct Method {
    pub name: Ident,
    pub generic_params: Vec<GenericParam>,
    pub receiver: Option<Receiver>,
    pub params: Vec<Param>,
    pub return_type: Option<Type>,
    pub body: Block,
    pub attributes: Vec<Attribute>,
    pub is_declaration: bool,
}

pub struct ImplBlock {
    pub target: Ident,
    pub target_generic_params: Vec<GenericParam>,
    pub methods: Vec<Method>,
}

pub struct StaticDecl {
    pub name: Ident,
    pub ty: Type,
    pub init: Option<Expr>,
}

pub struct ConstDecl {
    pub name: Ident,
    pub ty: Type,
    pub init: Expr,
}

pub enum ItemKind {
    Function(Function),
    Struct(StructDecl),
    Enum(EnumDecl),
    Impl(ImplBlock),
    Interface(Ident),
    TypeAlias(Ident, Type),
    Const(ConstDecl),
    Static(StaticDecl),
    ModuleAsm(String),
}

pub struct Item {
    pub kind: ItemKind,
    /// The file the item was merged from, where that is not the main file.
    pub origin_file: Option<String>,
}

pub struct Program {
    pub items: Vec<Item>,
}

pub struct Block {
    pub stmts: Vec<Stmt>,
    pub tail: Option<Box<Expr>>,
    pub span: Span,
}

pub struct Stmt {
    pub kind: StmtKind,
    pub span: Span,
}

#[allow(inconsistent_fields)]
pub enum StmtKind {
    Let { name: Ident, mutable: bool, ty: Option<Type>, init: Option<Expr> },
    LetDestructure { struct_name: Ident, fields: Vec<Ident>, init: Expr },
    Return(Option<Expr>),
    Expr(Expr),
    Defer(Expr),
    Assert(Expr),
    While { cond: Expr, body: Block },
    Loop(Block),
    For(ForLoop),
    Break,
    Continue,
    /// Pattern statements; rewritten to `Match` before ownership is analysed.
    IfLet { pattern: Pattern, value: Expr, then: Block, otherwise: Option<Block> },
    GuardLet { pattern: Pattern, value: Expr, otherwise: Block },
    WhileLet { pattern: Pattern, value: Expr, body: Block },
}

pub enum ForLoop {
    CStyle { init: Option<Box<Stmt>>, cond: Option<Expr>, update: Vec<Expr>, body: Block },
    Range { var: Ident, iter: Expr, body: Block },
}

pub struct Expr {
    pub kind: ExprKind,
    pub span: Span,
}

pub struct FieldInit {
    pub name: Ident,
    pub value: Expr,
}

pub struct MatchArm {
    pub pattern: Pattern,
    pub body: Expr,
}

pub enum InterpStrPart {
    Text(String),
    Expr(Expr),
}

pub struct AsmOperand {
    pub value: Expr,
}

#[derive(Debug, Clone, Copy, PartialEq, Eq, Structural)]
pub enum AssignOp {
    Assign,
    Add,
    Sub,
    Mul,
    Div,
    Rem,
    BitAnd,
    BitOr,
    BitXor,
    Shl,
    Shr,
}

#[derive(Debug, Clone, Copy, PartialEq, Eq, Structural)]
pub enum UnaryOp {
    Neg,
    Not,
    BitNot,
    Deref,
    AddrOf,
}

#[derive(Debug, Clone, Copy, PartialEq, Eq, Structural)]
pub enum BinaryOp {
    Add,
    Sub,
    Mul,
    Div,
    Rem,
    WrapAdd,
    WrapSub,
    WrapMul,
    Eq,
    Ne,
    Lt,
    Le,
    Gt,
    Ge,
    And,
    Or,
    BitAnd,
    BitOr,
    BitXor,
    Shl,
    Shr,
}

#[allow(inconsistent_fields)]
pub enum ExprKind {
    Ident(String),
    IntLit(u64, Option<String>),
    FloatLit(String, Option<String>),
    BoolLit(bool),
    StrLit(String),
    CStrLit(String),
    EmbedBytes { path: String },
    EmbedStr { path: String },
    EnvVar { name: String },
    Path { segments: Vec<Ident> },
    Field { receiver: Box<Expr>, name: Ident },
    Index { receiver: Box<Expr>, index: Box<Expr> },
    Assign { op: AssignOp, target: Box<Expr>, value: Box<Expr> },
    Call { callee: Box<Expr>, type_args: Vec<Type>, args: Vec<Expr> },
    StructLit { name: Ident, fields: Vec<FieldInit> },
    InferredStructLit { fields: Vec<FieldInit> },
    GenericStructLit { name: Ident, type_args: Vec<Type>, fields: Vec<FieldInit> },
    GenericEnumCall { enum_name: Ident, type_args: Vec<Type>, variant: Ident, args: Vec<Expr> },
    ArrayLit { elements: Vec<Expr> },
    TupleLit { elements: Vec<Expr> },
    ArrayFill { fill: Box<Expr>, len: u64 },
    Block(Block),
    If { cond: Box<Expr>, then: Block, else_branch: Option<Box<Expr>> },
    Match { scrutinee: Box<Expr>, arms: Vec<MatchArm> },
    Cast { expr: Box<Expr>, ty: Type },
    CastChecked { expr: Box<Expr>, ty: Type },
    Await(Box<Expr>),
    Yield(Box<Expr>),
    Unary { op: UnaryOp, operand: Box<Expr> },
    Binary { op: BinaryOp, lhs: Box<Expr>, rhs: Box<Expr> },
    Range { start: Option<Box<Expr>>, end: Option<Box<Expr>>, inclusive: bool },
    InterpStr { parts: Vec<InterpStrPart> },
    Intrinsic { name: Ident, type_args: Vec<Type>, args: Vec<Expr> },
    Asm { template: String, operands: Vec<AsmOperand> },
    /// A function used as a value.
    FnRef { callee: Box<Expr>, type_args: Vec<Type> },
    BuilderBlock { body: Block },
}

pub struct Pattern {
    pub kind: PatternKind,
    pub span: Span,
}

pub enum PatternKind {
    Binding(Ident),
    Variant { enum_name: Ident, type_args: Vec<Type>, variant_name: Ident, payload: Vec<Pattern> },
    Wildcard,
    Lit(PatternLit),
}

pub enum PatternLit {
    Int(u64),
    Bool(bool),
    Str(String),
}

} // verus!
