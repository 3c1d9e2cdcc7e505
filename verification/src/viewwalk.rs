//! The walk over function bodies that follows views.
use vstd::prelude::*;
use vstd::string::*;
use crate::ast;
use crate::flow;
use crate::infer;
use crate::sigs;
use crate::views;
use crate::ast::{AsmOperand, AssignOp, Attribute, Block, Expr, ExprKind, FieldInit, ForLoop, Ident, InterpStrPart, MatchArm, Param, Pattern, Receiver, Stmt, StmtKind, Type, TypeKind, TypeV, UnaryOp, has_keeps};
use crate::escapes::LeafRule;
use crate::flow::pattern_binding_names;
use crate::infer::{add_pattern_types, field_type};
use crate::messages::RawDiagV;
use crate::oracle::{CopyOracle, OracleV};
use crate::ordered::OrdMap;
use crate::sigs::{SigTable, SigTableV, clone_opt_type};
use crate::table::{NameMap, NameSet};
use crate::views::{LocalV, MethodSet, ScopeV, Scopes, ViewRules, ViewRulesV, ViewSite, ViewSiteV, clone_scopes, join_scopes, new_local};

verus! {

impl ViewRulesV {
    /// What is matched is owned by the arms: a binding that owns its value, or a value that
    /// no place holds.
    pub open spec fn owned_scrutinee(self, e: Expr) -> bool {
        match e.kind {
            ExprKind::Ident(n) => match self.local(n@) {
                Some(l) => l.owns,
                None => false,
            },
            ExprKind::Field { .. } => false,
            ExprKind::Index { .. } => false,
            ExprKind::Unary { op: UnaryOp::Deref, .. } => false,
            _ => true,
        }
    }

    pub open spec fn bind_names(self, names: Seq<Seq<char>>, tys: Map<Seq<char>, TypeV>, owned: bool, i: nat) -> ViewRulesV
        decreases names.len() - i,
    {
        if i >= names.len() {
            self
        } else {
            self.bind(names[i as int], views::plain_local(sigs::look(tys, names[i as int]), owned)).bind_names(
                names,
                tys,
                owned,
                i + 1,
            )
        }
    }

    /// Binds the names of a pattern, with the types of the variant's payload.
    pub open spec fn bind_pattern(self, p: Pattern, scrutinee: Expr, owned: bool) -> ViewRulesV {
        self.bind_names(
            flow::pattern_names(Seq::empty(), p),
            infer::with_pattern(Map::empty(), self.sigs, p, self.infer_ty(scrutinee)),
            owned,
            0,
        )
    }

    pub open spec fn bind_parts(self, base: Seq<char>, ids: Seq<Ident>, i: nat) -> ViewRulesV
        decreases ids.len() - i,
    {
        if i >= ids.len() {
            self
        } else {
            self.bind(ids[i as int].name@, views::plain_local(infer::field_of(self.sigs, base, ids[i as int].name@), true)).bind_parts(
                base,
                ids,
                i + 1,
            )
        }
    }

    /// The rules on an assignment, after its value and its target were walked.
    pub open spec fn check_assign(self, target: Expr, value: Expr) -> ViewRulesV {
        let v = self.check_store_escape(target, value).check_raw_store(target, value).check_capture_store(target, value);
        let v = match v.place_ty(target) {
            Some(t) => v.check_bound_view(t, value),
            None => v,
        };
        match target.kind {
            ExprKind::Ident(n) => match v.local(n@) {
                Some(LocalV { ty: Some(t), .. }) => v.set_roots(
                    n@,
                    if v.viewing(t) {
                        v.borrow_roots(value)
                    } else {
                        Seq::empty()
                    },
                ),
                _ => v,
            },
            _ => v,
        }
    }

    pub open spec fn check_destructured(self, base: Seq<char>, init: Expr) -> ViewRulesV {
        let t = infer::path_at(base, init.span);
        if self.carries(t) {
            self.check_leaves(LeafRule::Temporary, init, Some(t))
        } else {
            self
        }
    }
}

pub open spec fn join_all(ss: Seq<ScopeV>, per: Seq<Seq<ScopeV>>, i: nat) -> Seq<ScopeV>
    decreases per.len() - i,
{
    if i >= per.len() {
        ss
    } else {
        join_all(views::joined(ss, per[i as int]), per, i + 1)
    }
}

pub open spec fn builds_enum(sigs: SigTableV, callee: Expr) -> bool {
    match callee.kind {
        ExprKind::Path { segments } => segments@.len() == 2 && sigs.enums.contains(segments@[0].name@),
        _ => false,
    }
}

pub open spec fn view_exprs(v: ViewRulesV, es: Seq<Expr>, i: nat) -> ViewRulesV
    decreases es, es.len() - i,
{
    if i >= es.len() {
        v
    } else {
        view_exprs(view_expr(v, es[i as int]), es, i + 1)
    }
}

pub open spec fn view_fields(v: ViewRulesV, fs: Seq<FieldInit>, i: nat) -> ViewRulesV
    decreases fs, fs.len() - i,
{
    if i >= fs.len() {
        v
    } else {
        view_fields(view_expr(v, fs[i as int].value), fs, i + 1)
    }
}

pub open spec fn view_parts(v: ViewRulesV, ps: Seq<InterpStrPart>, i: nat) -> ViewRulesV
    decreases ps, ps.len() - i,
{
    if i >= ps.len() {
        v
    } else {
        view_parts(
            match ps[i as int] {
                InterpStrPart::Expr(e) => view_expr(v, e),
                InterpStrPart::Text(_) => v,
            },
            ps,
            i + 1,
        )
    }
}

pub open spec fn view_operands(v: ViewRulesV, ops: Seq<AsmOperand>, i: nat) -> ViewRulesV
    decreases ops, ops.len() - i,
{
    if i >= ops.len() {
        v
    } else {
        view_operands(view_expr(v, ops[i as int].value), ops, i + 1)
    }
}

/// The arguments of a call; those of a constructor are part of its value.
pub open spec fn view_args(v: ViewRulesV, args: Seq<Expr>, builds: bool, i: nat) -> ViewRulesV
    decreases args, args.len() - i,
{
    if i >= args.len() {
        v
    } else {
        let w = if builds {
            v
        } else {
            v.check_capture_arg(args[i as int])
        };
        view_args(view_expr(w, args[i as int]), args, builds, i + 1)
    }
}

/// Walks each arm from the same bindings; gives what was reported and learned, and the
/// bindings after each arm.
pub open spec fn view_arms(
    v: ViewRulesV,
    before: Seq<ScopeV>,
    scrutinee: Expr,
    owned: bool,
    arms: Seq<MatchArm>,
    per: Seq<Seq<ScopeV>>,
    i: nat,
) -> (ViewRulesV, Seq<Seq<ScopeV>>)
    decreases arms, arms.len() - i,
{
    if i >= arms.len() {
        (v, per)
    } else {
        let w = v.with_scopes(before).push_scope().bind_pattern(arms[i as int].pattern, scrutinee, owned);
        let w = view_expr(w, arms[i as int].body).pop_scope();
        view_arms(w, before, scrutinee, owned, arms, per.push(w.scopes), i + 1)
    }
}

pub open spec fn view_expr(v: ViewRulesV, e: Expr) -> ViewRulesV
    decreases e, 0nat,
{
    match e.kind {
        ExprKind::Block(b) => view_block(v, b),
        ExprKind::If { cond, then, else_branch } => {
            let v = view_expr(v, *cond);
            let before = v.scopes;
            let v = view_block(v, then);
            let after = v.scopes;
            let v = v.with_scopes(before);
            let v = match else_branch {
                Some(x) => view_expr(v, *x),
                None => v,
            };
            v.with_scopes(views::joined(v.scopes, after))
        },
        ExprKind::Match { scrutinee, arms } => {
            let v = view_expr(v, *scrutinee);
            let before = v.scopes;
            let (w, per) = view_arms(v, before, *scrutinee, v.owned_scrutinee(*scrutinee), arms@, Seq::empty(), 0);
            w.with_scopes(join_all(before, per, 0))
        },
        ExprKind::Assign { op, target, value } => {
            let v = view_expr(view_expr(v, *value), *target);
            if op == AssignOp::Assign {
                v.check_assign(*target, *value)
            } else {
                v
            }
        },
        ExprKind::Call { callee, args, .. } => {
            let v = view_expr(v, *callee);
            view_args(v, args@, builds_enum(v.sigs, *callee), 0)
        },
        ExprKind::Binary { lhs, rhs, .. } => view_expr(view_expr(v, *lhs), *rhs),
        ExprKind::Unary { operand, .. } => view_expr(v, *operand),
        ExprKind::Field { receiver, .. } => view_expr(v, *receiver),
        ExprKind::Index { receiver, index } => view_expr(view_expr(v, *receiver), *index),
        ExprKind::Cast { expr, .. } => view_expr(v, *expr),
        ExprKind::StructLit { fields, .. } => view_fields(v, fields@, 0),
        ExprKind::InferredStructLit { fields } => view_fields(v, fields@, 0),
        ExprKind::GenericStructLit { fields, .. } => view_fields(v, fields@, 0),
        ExprKind::ArrayLit { elements } => view_exprs(v, elements@, 0),
        ExprKind::TupleLit { elements } => view_exprs(v, elements@, 0),
        ExprKind::GenericEnumCall { args, .. } => view_exprs(v, args@, 0),
        ExprKind::ArrayFill { fill, .. } => view_expr(v, *fill),
        ExprKind::CastChecked { expr, .. } => view_expr(v, *expr),
        ExprKind::Await(inner) => view_expr(v, *inner),
        ExprKind::Yield(inner) => view_expr(v, *inner),
        ExprKind::Range { start, end, .. } => {
            let v = match start {
                Some(x) => view_expr(v, *x),
                None => v,
            };
            match end {
                Some(x) => view_expr(v, *x),
                None => v,
            }
        },
        ExprKind::InterpStr { parts } => view_parts(v, parts@, 0),
        ExprKind::Intrinsic { args, .. } => view_exprs(v, args@, 0),
        ExprKind::Asm { operands, .. } => view_operands(v, operands@, 0),
        ExprKind::FnRef { callee, .. } => view_expr(v, *callee),
        _ => v,
    }
}

pub open spec fn view_stmts(v: ViewRulesV, ss: Seq<Stmt>, i: nat) -> ViewRulesV
    decreases ss, ss.len() - i,
{
    if i >= ss.len() {
        v
    } else {
        view_stmts(view_stmt(v, ss[i as int]), ss, i + 1)
    }
}

pub open spec fn view_block(v: ViewRulesV, b: Block) -> ViewRulesV
    decreases b, 0nat,
{
    let v = view_stmts(v.push_scope(), b.stmts@, 0);
    let v = match b.tail {
        Some(t) => view_expr(v, *t),
        None => v,
    };
    v.pop_scope()
}

pub open spec fn view_stmt(v: ViewRulesV, s: Stmt) -> ViewRulesV
    decreases s, 0nat,
{
    let v = v.update_taint(s);
    match s.kind {
        StmtKind::Let { name, ty, init, .. } => {
            let v = match init {
                Some(e) => view_expr(v, e),
                None => v,
            };
            v.bind_let(name.name@, sigs::opt_type(ty), init)
        },
        StmtKind::LetDestructure { struct_name, fields, init } => view_expr(v, init).check_destructured(
            struct_name.name@,
            init,
        ).bind_parts(struct_name.name@, fields@, 0),
        StmtKind::Return(Some(e)) => view_expr(v, e).check_returned_aggregate(e).check_return(e).check_capture_return(e),
        StmtKind::While { cond, body } => view_block(view_expr(v, cond), body),
        StmtKind::For(fl) => view_for(v.push_scope(), fl).pop_scope(),
        StmtKind::Loop(b) => view_block(v, b),
        StmtKind::Expr(e) => view_expr(v, e),
        StmtKind::Defer(e) => view_expr(v, e),
        StmtKind::Assert(e) => view_expr(v, e),
        _ => v,
    }
}

pub open spec fn view_for(v: ViewRulesV, fl: ForLoop) -> ViewRulesV
    decreases fl, 0nat,
{
    match fl {
        ForLoop::CStyle { init, cond, update, body } => {
            let v = match init {
                Some(s) => view_stmt(v, *s),
                None => v,
            };
            let v = match cond {
                Some(c) => view_expr(v, c),
                None => v,
            };
            view_block(view_exprs(v, update@, 0), body)
        },
        ForLoop::Range { var, iter, body } => view_block(
            view_expr(v, iter).bind(var.name@, views::plain_local(None, false)),
            body,
        ),
    }
}

fn clone_or_none(t: Option<&Type>) -> (r: Option<Type>)
    ensures
        sigs::opt_type(r) == (match t {
            Some(t) => Some(t@),
            None => None,
        }),
{
    match t {
        Some(t) => Some(t.clone()),
        None => None,
    }
}

fn join_every(before: &Scopes, per: &Vec<Scopes>) -> (r: Scopes)
    ensures
        r.deep_view() == join_all(before.deep_view(), per.deep_view(), 0),
{
    let mut out = clone_scopes(before);
    let mut i: usize = 0;
    while i < per.len()
        invariant
            i <= per@.len(),
            join_all(out.deep_view(), per.deep_view(), i as nat) == join_all(before.deep_view(), per.deep_view(), 0),
        decreases per@.len() - i,
    {
        assert(per.deep_view()[i as int] == per@[i as int].deep_view());
        out = join_scopes(&out, &per[i]);
        i += 1;
    }
    out
}

impl<'a> ViewRules<'a> {
    fn scrutinee_is_owned(&self, e: &Expr) -> (r: bool)
        ensures
            r == self@.owned_scrutinee(*e),
    {
        match &e.kind {
            ExprKind::Ident(n) => match self.lookup(n.as_str()) {
                Some(l) => l.owns_value,
                None => false,
            },
            ExprKind::Field { .. } => false,
            ExprKind::Index { .. } => false,
            ExprKind::Unary { op: UnaryOp::Deref, .. } => false,
            _ => true,
        }
    }

    fn bind_pattern(&mut self, p: &Pattern, scrutinee: &Expr, owned: bool)
        ensures
            final(self)@ == old(self)@.bind_pattern(*p, *scrutinee, owned),
    {
        let mut tys: NameMap<Type> = NameMap::new();
        let matched = self.infer_ty(scrutinee);
        add_pattern_types(&mut tys, self.sigs, p, &matched);
        let names = pattern_binding_names(p);
        let ghost nv = names.deep_view();
        let mut i: usize = 0;
        while i < names.len()
            invariant
                i <= names@.len(),
                nv == names.deep_view(),
                self@.bind_names(nv, tys@, owned, i as nat) == old(self)@.bind_names(nv, tys@, owned, 0),
            decreases names@.len() - i,
        {
            assert(nv[i as int] == names@[i as int]@);
            let t = clone_or_none(tys.get(names[i].as_str()));
            self.bind(names[i].as_str(), new_local(t, owned));
            i += 1;
        }
    }

    fn bind_parts(&mut self, base: &str, ids: &Vec<Ident>)
        ensures
            final(self)@ == old(self)@.bind_parts(base@, ids@, 0),
    {
        let mut i: usize = 0;
        while i < ids.len()
            invariant
                i <= ids@.len(),
                self@.bind_parts(base@, ids@, i as nat) == old(self)@.bind_parts(base@, ids@, 0),
            decreases ids@.len() - i,
        {
            let t = field_type(self.sigs, base, ids[i].name.as_str());
            self.bind(ids[i].name.as_str(), new_local(t, true));
            i += 1;
        }
    }

    fn check_assign(&mut self, target: &Expr, value: &Expr)
        ensures
            final(self)@ == old(self)@.check_assign(*target, *value),
    {
        self.check_store_escape(target, value);
        self.check_raw_store(target, value);
        self.check_capture_store(target, value);
        if let Some(t) = self.place_ty(target) {
            self.check_bound_view(&t, value);
        }
        if let ExprKind::Ident(n) = &target.kind {
            let views = match self.lookup(n.as_str()) {
                Some(l) => match &l.ty {
                    Some(t) => self.is_viewing(t),
                    None => {
                        return;
                    },
                },
                None => {
                    return;
                },
            };
            let roots = if views {
                self.borrow_roots_of(value)
            } else {
                OrdMap::new()
            };
            self.set_roots(n.as_str(), roots);
        }
    }

    fn check_destructured(&mut self, base: &str, init: &Expr)
        ensures
            final(self)@ == old(self)@.check_destructured(base@, *init),
    {
        let t = Type { kind: TypeKind::Path(base.to_owned()), span: init.span };
        if self.carries_view(&t) {
            let expected = Some(t);
            self.check_leaves(LeafRule::Temporary, init, &expected);
        }
    }

    fn swap_scopes(&mut self, ss: Scopes) -> (r: Scopes)
        ensures
            r.deep_view() == old(self)@.scopes,
            final(self)@ == old(self)@.with_scopes(ss.deep_view()),
    {
        let mut s = ss;
        std::mem::swap(&mut s, &mut self.scopes);
        s
    }

    fn join_with(&mut self, other: &Scopes)
        ensures
            final(self)@ == old(self)@.with_scopes(views::joined(old(self)@.scopes, other.deep_view())),
    {
        self.scopes = join_scopes(&self.scopes, other);
    }

    fn keep_scopes(&self) -> (r: Scopes)
        ensures
            r.deep_view() == self@.scopes,
    {
        clone_scopes(&self.scopes)
    }

    fn is_enum_call(&self, callee: &Expr) -> (r: bool)
        ensures
            r == builds_enum(self@.sigs, *callee),
    {
        match &callee.kind {
            ExprKind::Path { segments } => segments.len() == 2 && self.sigs.enums.contains(segments[0].name.as_str()),
            _ => false,
        }
    }

    #[verifier::loop_isolation(false)]
    fn walk_exprs(&mut self, es: &Vec<Expr>)
        ensures
            final(self)@ == view_exprs(old(self)@, es@, 0),
        decreases es, 0nat,
    {
        let mut i: usize = 0;
        while i < es.len()
            invariant
                i <= es@.len(),
                view_exprs(self@, es@, i as nat) == view_exprs(old(self)@, es@, 0),
            decreases es@.len() - i,
        {
            self.walk_expr(&es[i]);
            i += 1;
        }
    }

    #[verifier::loop_isolation(false)]
    fn walk_fields(&mut self, fs: &Vec<FieldInit>)
        ensures
            final(self)@ == view_fields(old(self)@, fs@, 0),
        decreases fs, 0nat,
    {
        let mut i: usize = 0;
        while i < fs.len()
            invariant
                i <= fs@.len(),
                view_fields(self@, fs@, i as nat) == view_fields(old(self)@, fs@, 0),
            decreases fs@.len() - i,
        {
            self.walk_expr(&fs[i].value);
            i += 1;
        }
    }

    #[verifier::loop_isolation(false)]
    fn walk_parts(&mut self, ps: &Vec<InterpStrPart>)
        ensures
            final(self)@ == view_parts(old(self)@, ps@, 0),
        decreases ps, 0nat,
    {
        let mut i: usize = 0;
        while i < ps.len()
            invariant
                i <= ps@.len(),
                view_parts(self@, ps@, i as nat) == view_parts(old(self)@, ps@, 0),
            decreases ps@.len() - i,
        {
            if let InterpStrPart::Expr(e) = &ps[i] {
                self.walk_expr(e);
            }
            i += 1;
        }
    }

    #[verifier::loop_isolation(false)]
    fn walk_operands(&mut self, ops: &Vec<AsmOperand>)
        ensures
            final(self)@ == view_operands(old(self)@, ops@, 0),
        decreases ops, 0nat,
    {
        let mut i: usize = 0;
        while i < ops.len()
            invariant
                i <= ops@.len(),
                view_operands(self@, ops@, i as nat) == view_operands(old(self)@, ops@, 0),
            decreases ops@.len() - i,
        {
            self.walk_expr(&ops[i].value);
            i += 1;
        }
    }

    #[verifier::loop_isolation(false)]
    fn walk_args(&mut self, args: &Vec<Expr>, builds: bool)
        ensures
            final(self)@ == view_args(old(self)@, args@, builds, 0),
        decreases args, 0nat,
    {
        let mut i: usize = 0;
        while i < args.len()
            invariant
                i <= args@.len(),
                view_args(self@, args@, builds, i as nat) == view_args(old(self)@, args@, builds, 0),
            decreases args@.len() - i,
        {
            if !builds {
                self.check_capture_arg(&args[i]);
            }
            self.walk_expr(&args[i]);
            i += 1;
        }
    }

    #[verifier::loop_isolation(false)]
    fn walk_arms(&mut self, scrutinee: &Expr, arms: &Vec<MatchArm>)
        ensures
            ({
                let v = old(self)@;
                let (w, per) = view_arms(
                    v,
                    v.scopes,
                    *scrutinee,
                    v.owned_scrutinee(*scrutinee),
                    arms@,
                    Seq::empty(),
                    0,
                );
                final(self)@ == w.with_scopes(join_all(v.scopes, per, 0))
            }),
        decreases arms, 0nat,
    {
        let owned = self.scrutinee_is_owned(scrutinee);
        let before = clone_scopes(&self.scopes);
        let ghost bv = before.deep_view();
        let mut per: Vec<Scopes> = Vec::new();
        assert(per.deep_view() =~= Seq::<Seq<ScopeV>>::empty());
        let ghost total = view_arms(self@, bv, *scrutinee, owned, arms@, Seq::empty(), 0);
        let mut i: usize = 0;
        while i < arms.len()
            invariant
                i <= arms@.len(),
                view_arms(self@, bv, *scrutinee, owned, arms@, per.deep_view(), i as nat) == total,
            decreases arms@.len() - i,
        {
            self.scopes = clone_scopes(&before);
            self.push_scope();
            self.bind_pattern(&arms[i].pattern, scrutinee, owned);
            self.walk_expr(&arms[i].body);
            self.pop_scope();
            let after = clone_scopes(&self.scopes);
            let ghost pv = per.deep_view();
            let ghost av = after.deep_view();
            per.push(after);
            assert(per.deep_view() =~= pv.push(av));
            i += 1;
        }
        self.scopes = join_every(&before, &per);
    }

    fn walk_if(&mut self, e: &Expr)
        requires
            e.kind is If,
        ensures
            final(self)@ == view_expr(old(self)@, *e),
        decreases e, 0nat,
    {
        if let ExprKind::If { cond, then, else_branch } = &e.kind {
            self.walk_expr(cond);
            let before = self.keep_scopes();
            self.walk_block(then);
            let after = self.swap_scopes(before);
            if let Some(x) = else_branch {
                self.walk_expr(x);
            }
            self.join_with(&after);
        }
    }

    fn walk_match(&mut self, e: &Expr)
        requires
            e.kind is Match,
        ensures
            final(self)@ == view_expr(old(self)@, *e),
        decreases e, 0nat,
    {
        if let ExprKind::Match { scrutinee, arms } = &e.kind {
            self.walk_expr(scrutinee);
            self.walk_arms(scrutinee, arms);
        }
    }

    fn walk_assign(&mut self, e: &Expr)
        requires
            e.kind is Assign,
        ensures
            final(self)@ == view_expr(old(self)@, *e),
        decreases e, 0nat,
    {
        if let ExprKind::Assign { op, target, value } = &e.kind {
            self.walk_expr(value);
            self.walk_expr(target);
            if *op == AssignOp::Assign {
                self.check_assign(target, value);
            }
        }
    }

    fn walk_call(&mut self, e: &Expr)
        requires
            e.kind is Call,
        ensures
            final(self)@ == view_expr(old(self)@, *e),
        decreases e, 0nat,
    {
        if let ExprKind::Call { callee, args, .. } = &e.kind {
            self.walk_expr(callee);
            let builds = self.is_enum_call(callee);
            self.walk_args(args, builds);
        }
    }

    pub fn walk_expr(&mut self, e: &Expr)
        ensures
            final(self)@ == view_expr(old(self)@, *e),
        decreases e, 1nat,
    {
        match &e.kind {
            ExprKind::Block(b) => self.walk_block(b),
            ExprKind::If { .. } => self.walk_if(e),
            ExprKind::Match { .. } => self.walk_match(e),
            ExprKind::Assign { .. } => self.walk_assign(e),
            ExprKind::Call { .. } => self.walk_call(e),
            ExprKind::Binary { lhs, rhs, .. } => {
                self.walk_expr(lhs);
                self.walk_expr(rhs);
            },
            ExprKind::Unary { operand, .. } => self.walk_expr(operand),
            ExprKind::Field { receiver, .. } => self.walk_expr(receiver),
            ExprKind::Index { receiver, index } => {
                self.walk_expr(receiver);
                self.walk_expr(index);
            },
            ExprKind::Cast { expr, .. } => self.walk_expr(expr),
            ExprKind::StructLit { fields, .. } => self.walk_fields(fields),
            ExprKind::InferredStructLit { fields } => self.walk_fields(fields),
            ExprKind::GenericStructLit { fields, .. } => self.walk_fields(fields),
            ExprKind::ArrayLit { elements } => self.walk_exprs(elements),
            ExprKind::TupleLit { elements } => self.walk_exprs(elements),
            ExprKind::GenericEnumCall { args, .. } => self.walk_exprs(args),
            ExprKind::ArrayFill { fill, .. } => self.walk_expr(fill),
            ExprKind::CastChecked { expr, .. } => self.walk_expr(expr),
            ExprKind::Await(inner) => self.walk_expr(inner),
            ExprKind::Yield(inner) => self.walk_expr(inner),
            ExprKind::Range { start, end, .. } => {
                if let Some(x) = start {
                    self.walk_expr(x);
                }
                if let Some(x) = end {
                    self.walk_expr(x);
                }
            },
            ExprKind::InterpStr { parts } => self.walk_parts(parts),
            ExprKind::Intrinsic { args, .. } => self.walk_exprs(args),
            ExprKind::Asm { operands, .. } => self.walk_operands(operands),
            ExprKind::FnRef { callee, .. } => self.walk_expr(callee),
            _ => {},
        }
    }

    #[verifier::loop_isolation(false)]
    fn walk_stmts(&mut self, ss: &Vec<Stmt>)
        ensures
            final(self)@ == view_stmts(old(self)@, ss@, 0),
        decreases ss, 0nat,
    {
        let mut i: usize = 0;
        while i < ss.len()
            invariant
                i <= ss@.len(),
                view_stmts(self@, ss@, i as nat) == view_stmts(old(self)@, ss@, 0),
            decreases ss@.len() - i,
        {
            self.walk_stmt(&ss[i]);
            i += 1;
        }
    }

    pub fn walk_block(&mut self, b: &Block)
        ensures
            final(self)@ == view_block(old(self)@, *b),
        decreases b, 0nat,
    {
        self.push_scope();
        self.walk_stmts(&b.stmts);
        if let Some(t) = &b.tail {
            self.walk_expr(t);
        }
        self.pop_scope();
    }

    fn walk_stmt(&mut self, s: &Stmt)
        ensures
            final(self)@ == view_stmt(old(self)@, *s),
        decreases s, 0nat,
    {
        self.update_capture_taint(s);
        match &s.kind {
            StmtKind::Let { name, ty, init, .. } => {
                if let Some(e) = init {
                    self.walk_expr(e);
                }
                self.bind_let(name.name.as_str(), ty, init);
            },
            StmtKind::LetDestructure { struct_name, fields, init } => {
                self.walk_expr(init);
                self.check_destructured(struct_name.name.as_str(), init);
                self.bind_parts(struct_name.name.as_str(), fields);
            },
            StmtKind::Return(r) => if let Some(e) = r {
                self.walk_expr(e);
                self.check_returned_aggregate(e);
                self.check_return(e);
                self.check_capture_return(e);
            },
            StmtKind::While { cond, body } => {
                self.walk_expr(cond);
                self.walk_block(body);
            },
            StmtKind::For(fl) => {
                self.push_scope();
                self.walk_for(fl);
                self.pop_scope();
            },
            StmtKind::Loop(b) => self.walk_block(b),
            StmtKind::Expr(e) => self.walk_expr(e),
            StmtKind::Defer(e) => self.walk_expr(e),
            StmtKind::Assert(e) => self.walk_expr(e),
            _ => {},
        }
    }

    fn walk_for(&mut self, fl: &ForLoop)
        ensures
            final(self)@ == view_for(old(self)@, *fl),
        decreases fl, 0nat,
    {
        match fl {
            ForLoop::CStyle { init, cond, update, body } => {
                if let Some(s) = init {
                    self.walk_stmt(s);
                }
                if let Some(c) = cond {
                    self.walk_expr(c);
                }
                self.walk_exprs(update);
                self.walk_block(body);
            },
            ForLoop::Range { var, iter, body } => {
                self.walk_expr(iter);
                self.bind(var.name.as_str(), new_local(None, false));
                self.walk_block(body);
            },
        }
    }
}

// ---------------------------------------------------------------------------
// Entering a body.

impl ViewRulesV {
    pub open spec fn enter(self, ps: Seq<Param>, i: nat) -> ViewRulesV
        decreases ps.len() - i,
    {
        if i >= ps.len() {
            self
        } else {
            let p = ps[i as int];
            let n = p.name.name@;
            let v = ViewRulesV {
                params: self.params.insert(n),
                index: self.index.insert(n, i as usize),
                refs: if p.mutable && !p.move_ {
                    self.refs.insert(n)
                } else {
                    self.refs
                },
                scopes: seq![self.scopes[0].insert(n, views::plain_local(Some(p.ty@), p.move_))],
                ..self
            };
            v.enter(ps, i + 1)
        }
    }

    pub open spec fn enter_receiver(self, r: Option<Receiver>, t: Option<TypeV>) -> ViewRulesV {
        match r {
            Some(r) => ViewRulesV {
                params: self.params.insert("self"@),
                refs: if r == Receiver::Mut {
                    self.refs.insert("self"@)
                } else {
                    self.refs
                },
                scopes: seq![self.scopes[0].insert("self"@, views::plain_local(t, r == Receiver::Move))],
                ..self
            },
            None => self,
        }
    }
}

/// The start of the walk over a body.
pub open spec fn view_start(
    sigs: SigTableV,
    oracle: OracleV,
    statics: Map<Seq<char>, TypeV>,
    capturing: Set<(Seq<char>, Seq<char>)>,
    site: ViewSiteV,
    receiver: Option<Receiver>,
    receiver_ty: Option<TypeV>,
    ps: Seq<Param>,
    ret: Option<TypeV>,
    attributes: Seq<Attribute>,
) -> ViewRulesV {
    ViewRulesV {
        sigs,
        oracle,
        statics,
        capturing,
        taint: Seq::empty(),
        scopes: seq![Map::empty()],
        params: Set::empty(),
        index: Map::empty(),
        refs: Set::empty(),
        ret,
        site,
        declares: ast::keeps(attributes, "this"@) || ast::keeps(attributes, "nothing"@),
        diags: Seq::empty(),
    }.enter_receiver(receiver, receiver_ty).enter(ps, 0)
}

impl<'a> ViewRules<'a> {
    fn enter(&mut self, ps: &Vec<Param>)
        requires
            old(self).scopes@.len() == 1,
        ensures
            final(self)@ == old(self)@.enter(ps@, 0),
    {
        let mut i: usize = 0;
        while i < ps.len()
            invariant
                i <= ps@.len(),
                self.scopes@.len() == 1,
                self@.enter(ps@, i as nat) == old(self)@.enter(ps@, 0),
            decreases ps@.len() - i,
        {
            let p = &ps[i];
            let ghost v = self@;
            self.param_names.insert(p.name.name.clone());
            self.param_index.insert(p.name.name.clone(), i);
            if p.mutable && !p.move_ {
                self.ref_targets.insert(p.name.name.clone());
            }
            let ghost ss = self.scopes.deep_view();
            let mut top = self.scopes.remove(0);
            assert(ss[0] == top@);
            top.insert(p.name.name.clone(), new_local(Some(p.ty.clone()), p.move_));
            let ghost tv = top@;
            self.scopes.push(top);
            assert(self.scopes.deep_view() =~= seq![tv]);
            i += 1;
        }
    }

    fn enter_receiver(&mut self, receiver: Option<Receiver>, t: Option<Type>)
        requires
            old(self).scopes@.len() == 1,
        ensures
            final(self).scopes@.len() == 1,
            final(self)@ == old(self)@.enter_receiver(receiver, sigs::opt_type(t)),
    {
        if let Some(r) = receiver {
            self.param_names.insert("self".to_owned());
            if r == Receiver::Mut {
                self.ref_targets.insert("self".to_owned());
            }
            let ghost ss = self.scopes.deep_view();
            let mut top = self.scopes.remove(0);
            assert(ss[0] == top@);
            top.insert("self".to_owned(), new_local(t, r == Receiver::Move));
            let ghost tv = top@;
            self.scopes.push(top);
            assert(self.scopes.deep_view() =~= seq![tv]);
        }
    }

    pub fn new(
        sigs: &'a SigTable,
        oracle: &'a CopyOracle,
        statics: &'a NameMap<Type>,
        capturing: &'a MethodSet,
        site: ViewSite,
        receiver: Option<Receiver>,
        receiver_ty: Option<Type>,
        ps: &Vec<Param>,
        ret: &Option<Type>,
        attributes: &Vec<Attribute>,
    ) -> (r: ViewRules<'a>)
        ensures
            r@ == view_start(
                sigs@,
                oracle@,
                statics@,
                capturing@,
                site@,
                receiver,
                sigs::opt_type(receiver_ty),
                ps@,
                sigs::opt_type(*ret),
                attributes@,
            ),
    {
        let mut scopes: Scopes = Vec::new();
        scopes.push(NameMap::new());
        assert(scopes.deep_view() =~= seq![Map::<Seq<char>, LocalV>::empty()]);
        let mut r = ViewRules {
            sigs,
            oracle,
            statics,
            capturing,
            capture_taint: OrdMap::new(),
            scopes,
            param_names: NameSet::new(),
            param_index: NameMap::new(),
            ref_targets: NameSet::new(),
            return_ty: clone_opt_type(ret),
            site,
            declares_flows: has_keeps(attributes, "this") || has_keeps(attributes, "nothing"),
            diags: Vec::new(),
        };
        assert(r@.diags =~= Seq::<RawDiagV>::empty());
        r.enter_receiver(receiver, receiver_ty);
        r.enter(ps);
        r
    }
}

} // verus!
