//! What the ownership analysis reports.
use vstd::prelude::*;
use vstd::string::*;
use crate::ast::Span;

verus! {

/// A finding, before it is tied to a file.
pub struct RawDiag {
    pub code: &'static str,
    pub message: String,
    pub primary: Span,
    /// A span, the text to put there, and what that would do.
    pub suggestion: Option<(Span, String, String)>,
    pub label: Option<(Span, String)>,
}

pub struct RawDiagV {
    pub code: Seq<char>,
    pub message: Seq<char>,
    pub primary: Span,
    pub suggestion: Option<(Span, Seq<char>, Seq<char>)>,
    pub label: Option<(Span, Seq<char>)>,
}

impl View for RawDiag {
    type V = RawDiagV;

    open spec fn view(&self) -> RawDiagV {
        RawDiagV {
            code: self.code@,
            message: self.message@,
            primary: self.primary,
            suggestion: match self.suggestion {
                Some((s, a, b)) => Some((s, a@, b@)),
                None => None,
            },
            label: match self.label {
                Some((s, t)) => Some((s, t@)),
                None => None,
            },
        }
    }
}

impl DeepView for RawDiag {
    type V = RawDiagV;

    open spec fn deep_view(&self) -> RawDiagV {
        self@
    }
}

/// Two arguments of one call claim a place and a part of it.
pub open spec fn partial_overlap(name: Seq<char>, a: Seq<char>, b: Seq<char>, span: Span, both: Span, other: Span) -> RawDiagV {
    RawDiagV {
        code: "E0374"@,
        message: "partial-place conflict on `"@ + name + "` in the same call"@,
        primary: span,
        suggestion: Some((both, Seq::empty(), "a borrow of `"@ + a + "` includes its sub-place `"@ + b + "` (or vice versa). Split into two calls if the operations are independent, or restructure to operate on a single uniform place."@)),
        label: Some((other, "overlapping access to `"@ + b + "` here"@)),
    }
}

pub fn report_partial_overlap(name: &str, a: &str, b: &str, span: Span, both: Span, other: Span) -> (r: RawDiag)
    ensures
        r@ == partial_overlap(name@, a@, b@, span, both, other),
{
    let mut message = "partial-place conflict on `".to_owned();
    message.append(name);
    message.append("` in the same call");
    let replacement = String::new();
    let mut hint = "a borrow of `".to_owned();
    hint.append(a);
    hint.append("` includes its sub-place `");
    hint.append(b);
    hint.append("` (or vice versa). Split into two calls if the operations are independent, or restructure to operate on a single uniform place.");
    let mut text = "overlapping access to `".to_owned();
    text.append(b);
    text.append("` here");
    let label = Some((other, text));
    RawDiag {
        code: "E0374",
        message,
        primary: span,
        suggestion: Some((both, replacement, hint)),
        label,
    }
}

/// Two arguments of one call borrow the same place exclusively.
pub open spec fn exclusive_twice(name: Seq<char>, first: Span, second: Span, both: Span) -> RawDiagV {
    RawDiagV {
        code: "E0380"@,
        message: "cannot exclusively borrow `"@ + name + "` twice in the same call"@,
        primary: second,
        suggestion: Some((both, Seq::empty(), "at most one exclusive borrow of a place can be live at a time; split into two calls if the operations are independent, or restructure to operate on different sub-places (e.g. `f(mut "@ + name + ".left, mut "@ + name + ".right)`)."@)),
        label: Some((first, "first `mut "@ + name + "` here"@)),
    }
}

pub fn report_exclusive_twice(name: &str, first: Span, second: Span, both: Span) -> (r: RawDiag)
    ensures
        r@ == exclusive_twice(name@, first, second, both),
{
    let mut message = "cannot exclusively borrow `".to_owned();
    message.append(name);
    message.append("` twice in the same call");
    let replacement = String::new();
    let mut hint = "at most one exclusive borrow of a place can be live at a time; split into two calls if the operations are independent, or restructure to operate on different sub-places (e.g. `f(mut ".to_owned();
    hint.append(name);
    hint.append(".left, mut ");
    hint.append(name);
    hint.append(".right)`).");
    let mut text = "first `mut ".to_owned();
    text.append(name);
    text.append("` here");
    let label = Some((first, text));
    RawDiag {
        code: "E0380",
        message,
        primary: second,
        suggestion: Some((both, replacement, hint)),
        label,
    }
}

/// One argument of a call moves what another borrows exclusively.
pub open spec fn exclusive_and_moved(name: Seq<char>, mut_span: Span, move_span: Span, both: Span) -> RawDiagV {
    RawDiagV {
        code: "E0382"@,
        message: "cannot move `"@ + name + "` and exclusively borrow it in the same call"@,
        primary: mut_span,
        suggestion: Some((both, Seq::empty(), "the exclusive borrow `mut "@ + name + "` claims access for the duration of the call, which conflicts with the `move "@ + name + "` consumption in the same call. Split into two statements."@)),
        label: Some((move_span, "`move "@ + name + "` here"@)),
    }
}

pub fn report_exclusive_and_moved(name: &str, mut_span: Span, move_span: Span, both: Span) -> (r: RawDiag)
    ensures
        r@ == exclusive_and_moved(name@, mut_span, move_span, both),
{
    let mut message = "cannot move `".to_owned();
    message.append(name);
    message.append("` and exclusively borrow it in the same call");
    let replacement = String::new();
    let mut hint = "the exclusive borrow `mut ".to_owned();
    hint.append(name);
    hint.append("` claims access for the duration of the call, which conflicts with the `move ");
    hint.append(name);
    hint.append("` consumption in the same call. Split into two statements.");
    let mut text = "`move ".to_owned();
    text.append(name);
    text.append("` here");
    let label = Some((move_span, text));
    RawDiag {
        code: "E0382",
        message,
        primary: mut_span,
        suggestion: Some((both, replacement, hint)),
        label,
    }
}

/// An argument reads a part of what a sibling claims.
pub open spec fn partial_sibling_read(name: Seq<char>, span: Span, other: Span, both: Span) -> RawDiagV {
    RawDiagV {
        code: "E0374"@,
        message: "partial-place conflict on `"@ + name + "` in the same call"@,
        primary: span,
        suggestion: Some((both, Seq::empty(), "the borrow of `"@ + name + "` (or one of its sub-places) overlaps a sibling argument that reads an overlapping place; a borrow of a place includes all of its sub-places. Split into two statements."@)),
        label: Some((other, "sibling read of `"@ + name + "` here"@)),
    }
}

pub fn report_partial_sibling_read(name: &str, span: Span, other: Span, both: Span) -> (r: RawDiag)
    ensures
        r@ == partial_sibling_read(name@, span, other, both),
{
    let mut message = "partial-place conflict on `".to_owned();
    message.append(name);
    message.append("` in the same call");
    let replacement = String::new();
    let mut hint = "the borrow of `".to_owned();
    hint.append(name);
    hint.append("` (or one of its sub-places) overlaps a sibling argument that reads an overlapping place; a borrow of a place includes all of its sub-places. Split into two statements.");
    let mut text = "sibling read of `".to_owned();
    text.append(name);
    text.append("` here");
    let label = Some((other, text));
    RawDiag {
        code: "E0374",
        message,
        primary: span,
        suggestion: Some((both, replacement, hint)),
        label,
    }
}

/// An argument reads what a sibling moves.
pub open spec fn moved_and_read(name: Seq<char>, span: Span, other: Span, both: Span) -> RawDiagV {
    RawDiagV {
        code: "E0370"@,
        message: "cannot move `"@ + name + "` and shared-borrow it in the same call"@,
        primary: span,
        suggestion: Some((both, Seq::empty(), "split into two statements so `"@ + name + "` is read before being moved: `let tmp = ...; consume(move "@ + name + ", tmp);`"@)),
        label: Some((other, "shared read of `"@ + name + "` here"@)),
    }
}

pub fn report_moved_and_read(name: &str, span: Span, other: Span, both: Span) -> (r: RawDiag)
    ensures
        r@ == moved_and_read(name@, span, other, both),
{
    let mut message = "cannot move `".to_owned();
    message.append(name);
    message.append("` and shared-borrow it in the same call");
    let replacement = String::new();
    let mut hint = "split into two statements so `".to_owned();
    hint.append(name);
    hint.append("` is read before being moved: `let tmp = ...; consume(move ");
    hint.append(name);
    hint.append(", tmp);`");
    let mut text = "shared read of `".to_owned();
    text.append(name);
    text.append("` here");
    let label = Some((other, text));
    RawDiag {
        code: "E0370",
        message,
        primary: span,
        suggestion: Some((both, replacement, hint)),
        label,
    }
}

/// An argument reads what a sibling borrows exclusively.
pub open spec fn exclusive_and_read(name: Seq<char>, span: Span, other: Span, both: Span) -> RawDiagV {
    RawDiagV {
        code: "E0381"@,
        message: "cannot exclusively borrow `"@ + name + "` and shared-borrow it in the same call"@,
        primary: span,
        suggestion: Some((both, Seq::empty(), "the exclusive borrow `mut "@ + name + "` claims access for the duration of the call; the sibling argument reads `"@ + name + "` concurrently. Split into two statements: `let tmp = ...; f(mut "@ + name + ", tmp);`"@)),
        label: Some((other, "shared read of `"@ + name + "` here"@)),
    }
}

pub fn report_exclusive_and_read(name: &str, span: Span, other: Span, both: Span) -> (r: RawDiag)
    ensures
        r@ == exclusive_and_read(name@, span, other, both),
{
    let mut message = "cannot exclusively borrow `".to_owned();
    message.append(name);
    message.append("` and shared-borrow it in the same call");
    let replacement = String::new();
    let mut hint = "the exclusive borrow `mut ".to_owned();
    hint.append(name);
    hint.append("` claims access for the duration of the call; the sibling argument reads `");
    hint.append(name);
    hint.append("` concurrently. Split into two statements: `let tmp = ...; f(mut ");
    hint.append(name);
    hint.append(", tmp);`");
    let mut text = "shared read of `".to_owned();
    text.append(name);
    text.append("` here");
    let label = Some((other, text));
    RawDiag {
        code: "E0381",
        message,
        primary: span,
        suggestion: Some((both, replacement, hint)),
        label,
    }
}

/// An argument moves the receiver of its call.
pub open spec fn receiver_moved_by_arg(name: Seq<char>, span: Span, recv: Span, both: Span) -> RawDiagV {
    RawDiagV {
        code: "E0370"@,
        message: "cannot move `"@ + name + "` in an argument while it is the call's receiver"@,
        primary: span,
        suggestion: Some((both, Seq::empty(), "the receiver reads `"@ + name + "` for the duration of the call;                                          split into two statements."@)),
        label: Some((recv, "`"@ + name + "` is the receiver here"@)),
    }
}

pub fn report_receiver_moved_by_arg(name: &str, span: Span, recv: Span, both: Span) -> (r: RawDiag)
    ensures
        r@ == receiver_moved_by_arg(name@, span, recv, both),
{
    let mut message = "cannot move `".to_owned();
    message.append(name);
    message.append("` in an argument while it is the call's receiver");
    let replacement = String::new();
    let mut hint = "the receiver reads `".to_owned();
    hint.append(name);
    hint.append("` for the duration of the call;                                          split into two statements.");
    let mut text = "`".to_owned();
    text.append(name);
    text.append("` is the receiver here");
    let label = Some((recv, text));
    RawDiag {
        code: "E0370",
        message,
        primary: span,
        suggestion: Some((both, replacement, hint)),
        label,
    }
}

/// An argument borrows the receiver of its call exclusively.
pub open spec fn receiver_borrowed_by_arg(name: Seq<char>, span: Span, recv: Span, both: Span) -> RawDiagV {
    RawDiagV {
        code: "E0381"@,
        message: "cannot exclusively borrow `"@ + name + "` in an argument while it is the call's receiver"@,
        primary: span,
        suggestion: Some((both, Seq::empty(), "the receiver reads `"@ + name + "` for the duration of the call;                                          split into two statements."@)),
        label: Some((recv, "`"@ + name + "` is the receiver here"@)),
    }
}

pub fn report_receiver_borrowed_by_arg(name: &str, span: Span, recv: Span, both: Span) -> (r: RawDiag)
    ensures
        r@ == receiver_borrowed_by_arg(name@, span, recv, both),
{
    let mut message = "cannot exclusively borrow `".to_owned();
    message.append(name);
    message.append("` in an argument while it is the call's receiver");
    let replacement = String::new();
    let mut hint = "the receiver reads `".to_owned();
    hint.append(name);
    hint.append("` for the duration of the call;                                          split into two statements.");
    let mut text = "`".to_owned();
    text.append(name);
    text.append("` is the receiver here");
    let label = Some((recv, text));
    RawDiag {
        code: "E0381",
        message,
        primary: span,
        suggestion: Some((both, replacement, hint)),
        label,
    }
}

/// An argument lends the receiver of its call.
pub open spec fn receiver_passed(name: Seq<char>, span: Span, recv: Span, both: Span) -> RawDiagV {
    RawDiagV {
        code: "E0381"@,
        message: "cannot pass `"@ + name + "` by borrow while it is the call's receiver"@,
        primary: span,
        suggestion: Some((both, Seq::empty(), "the receiver holds `"@ + name + "` for the duration of the call;                                          split into two statements."@)),
        label: Some((recv, "`"@ + name + "` is the receiver here"@)),
    }
}

pub fn report_receiver_passed(name: &str, span: Span, recv: Span, both: Span) -> (r: RawDiag)
    ensures
        r@ == receiver_passed(name@, span, recv, both),
{
    let mut message = "cannot pass `".to_owned();
    message.append(name);
    message.append("` by borrow while it is the call's receiver");
    let replacement = String::new();
    let mut hint = "the receiver holds `".to_owned();
    hint.append(name);
    hint.append("` for the duration of the call;                                          split into two statements.");
    let mut text = "`".to_owned();
    text.append(name);
    text.append("` is the receiver here");
    let label = Some((recv, text));
    RawDiag {
        code: "E0381",
        message,
        primary: span,
        suggestion: Some((both, replacement, hint)),
        label,
    }
}

/// A read of a sub-place that is borrowed exclusively.
pub open spec fn read_of_exclusive_place(place: Seq<char>, root: Seq<char>, borrower: Seq<char>, span: Span, at: Option<Span>) -> RawDiagV {
    RawDiagV {
        code: "E0383"@,
        message: "cannot read `"@ + place + "` while it is exclusively borrowed by `"@ + borrower + "`"@,
        primary: span,
        suggestion: Some((span, root, "while `"@ + borrower + "` is alive, no overlapping access to `"@ + place + "` is admitted."@)),
        label: match at {
            Some(s) => Some((s, "`"@ + borrower + "` borrows here"@)),
            None => None,
        },
    }
}

pub fn report_read_of_exclusive_place(place: &str, root: &str, borrower: &str, span: Span, at: Option<Span>) -> (r: RawDiag)
    ensures
        r@ == read_of_exclusive_place(place@, root@, borrower@, span, at),
{
    let mut message = "cannot read `".to_owned();
    message.append(place);
    message.append("` while it is exclusively borrowed by `");
    message.append(borrower);
    message.append("`");
    let replacement = root.to_owned();
    let mut hint = "while `".to_owned();
    hint.append(borrower);
    hint.append("` is alive, no overlapping access to `");
    hint.append(place);
    hint.append("` is admitted.");
    let label = match at {
        Some(s) => {
            let mut text = "`".to_owned();
            text.append(borrower);
            text.append("` borrows here");
            Some((s, text))
        },
        None => None,
    };
    RawDiag {
        code: "E0383",
        message,
        primary: span,
        suggestion: Some((span, replacement, hint)),
        label,
    }
}

/// A read of a sub-place that overlaps an exclusive borrow.
pub open spec fn read_overlapping_exclusive(place: Seq<char>, root: Seq<char>, other: Seq<char>, borrower: Seq<char>, span: Span, at: Option<Span>) -> RawDiagV {
    RawDiagV {
        code: "E0374"@,
        message: "cannot read `"@ + place + "` while it overlaps the exclusive borrow `"@ + other + "` held by `"@ + borrower + "`"@,
        primary: span,
        suggestion: Some((span, root, "while `"@ + borrower + "` is alive, no overlapping access to `"@ + place + "` is admitted."@)),
        label: match at {
            Some(s) => Some((s, "`"@ + borrower + "` borrows here"@)),
            None => None,
        },
    }
}

pub fn report_read_overlapping_exclusive(place: &str, root: &str, other: &str, borrower: &str, span: Span, at: Option<Span>) -> (r: RawDiag)
    ensures
        r@ == read_overlapping_exclusive(place@, root@, other@, borrower@, span, at),
{
    let mut message = "cannot read `".to_owned();
    message.append(place);
    message.append("` while it overlaps the exclusive borrow `");
    message.append(other);
    message.append("` held by `");
    message.append(borrower);
    message.append("`");
    let replacement = root.to_owned();
    let mut hint = "while `".to_owned();
    hint.append(borrower);
    hint.append("` is alive, no overlapping access to `");
    hint.append(place);
    hint.append("` is admitted.");
    let label = match at {
        Some(s) => {
            let mut text = "`".to_owned();
            text.append(borrower);
            text.append("` borrows here");
            Some((s, text))
        },
        None => None,
    };
    RawDiag {
        code: "E0374",
        message,
        primary: span,
        suggestion: Some((span, replacement, hint)),
        label,
    }
}

/// A use of a binding that some paths have moved.
pub open spec fn maybe_moved(name: Seq<char>, span: Span) -> RawDiagV {
    RawDiagV {
        code: "E0371"@,
        message: "use of possibly-moved binding `"@ + name + "`"@,
        primary: span,
        suggestion: Some((span, name, "`"@ + name + "` is moved on some branches but not others; ensure every branch either moves or preserves the binding, or clone it before the branch: `let "@ + name + "_owned = "@ + name + ".clone();`"@)),
        label: None,
    }
}

pub fn report_maybe_moved(name: &str, span: Span) -> (r: RawDiag)
    ensures
        r@ == maybe_moved(name@, span),
{
    let mut message = "use of possibly-moved binding `".to_owned();
    message.append(name);
    message.append("`");
    let replacement = name.to_owned();
    let mut hint = "`".to_owned();
    hint.append(name);
    hint.append("` is moved on some branches but not others; ensure every branch either moves or preserves the binding, or clone it before the branch: `let ");
    hint.append(name);
    hint.append("_owned = ");
    hint.append(name);
    hint.append(".clone();`");
    RawDiag {
        code: "E0371",
        message,
        primary: span,
        suggestion: Some((span, replacement, hint)),
        label: None,
    }
}

/// A read of a binding that is borrowed exclusively.
pub open spec fn read_of_exclusive(name: Seq<char>, borrower: Seq<char>, span: Span, at: Option<Span>) -> RawDiagV {
    RawDiagV {
        code: "E0383"@,
        message: "cannot read `"@ + name + "` while it is exclusively borrowed by `"@ + borrower + "`"@,
        primary: span,
        suggestion: Some((span, name, "while `"@ + borrower + "` is alive, no overlapping access to `"@ + name + "` is admitted. Either drop `"@ + borrower + "` before reading `"@ + name + "`, or restructure so the read happens before the exclusive borrow is established."@)),
        label: match at {
            Some(s) => Some((s, "`"@ + borrower + "` borrows `"@ + name + "` here"@)),
            None => None,
        },
    }
}

pub fn report_read_of_exclusive(name: &str, borrower: &str, span: Span, at: Option<Span>) -> (r: RawDiag)
    ensures
        r@ == read_of_exclusive(name@, borrower@, span, at),
{
    let mut message = "cannot read `".to_owned();
    message.append(name);
    message.append("` while it is exclusively borrowed by `");
    message.append(borrower);
    message.append("`");
    let replacement = name.to_owned();
    let mut hint = "while `".to_owned();
    hint.append(borrower);
    hint.append("` is alive, no overlapping access to `");
    hint.append(name);
    hint.append("` is admitted. Either drop `");
    hint.append(borrower);
    hint.append("` before reading `");
    hint.append(name);
    hint.append("`, or restructure so the read happens before the exclusive borrow is established.");
    let label = match at {
        Some(s) => {
            let mut text = "`".to_owned();
            text.append(borrower);
            text.append("` borrows `");
            text.append(name);
            text.append("` here");
            Some((s, text))
        },
        None => None,
    };
    RawDiag {
        code: "E0383",
        message,
        primary: span,
        suggestion: Some((span, replacement, hint)),
        label,
    }
}

/// A read of a binding with a part that is borrowed exclusively.
pub open spec fn read_of_partly_exclusive(name: Seq<char>, sub: Seq<char>, borrower: Seq<char>, span: Span, at: Option<Span>) -> RawDiagV {
    RawDiagV {
        code: "E0374"@,
        message: "cannot read `"@ + name + "` while one of its sub-places (`"@ + sub + "`) is exclusively borrowed by `"@ + borrower + "`"@,
        primary: span,
        suggestion: Some((span, name, "while `"@ + borrower + "` is alive, no overlapping access to `"@ + name + "` is admitted. Either drop `"@ + borrower + "` before reading `"@ + name + "`, or restructure so the read happens before the exclusive borrow is established."@)),
        label: match at {
            Some(s) => Some((s, "`"@ + borrower + "` borrows `"@ + name + "` here"@)),
            None => None,
        },
    }
}

pub fn report_read_of_partly_exclusive(name: &str, sub: &str, borrower: &str, span: Span, at: Option<Span>) -> (r: RawDiag)
    ensures
        r@ == read_of_partly_exclusive(name@, sub@, borrower@, span, at),
{
    let mut message = "cannot read `".to_owned();
    message.append(name);
    message.append("` while one of its sub-places (`");
    message.append(sub);
    message.append("`) is exclusively borrowed by `");
    message.append(borrower);
    message.append("`");
    let replacement = name.to_owned();
    let mut hint = "while `".to_owned();
    hint.append(borrower);
    hint.append("` is alive, no overlapping access to `");
    hint.append(name);
    hint.append("` is admitted. Either drop `");
    hint.append(borrower);
    hint.append("` before reading `");
    hint.append(name);
    hint.append("`, or restructure so the read happens before the exclusive borrow is established.");
    let label = match at {
        Some(s) => {
            let mut text = "`".to_owned();
            text.append(borrower);
            text.append("` borrows `");
            text.append(name);
            text.append("` here");
            Some((s, text))
        },
        None => None,
    };
    RawDiag {
        code: "E0374",
        message,
        primary: span,
        suggestion: Some((span, replacement, hint)),
        label,
    }
}

/// A `ref` argument that is already borrowed.
pub open spec fn ref_while_borrowed(name: Seq<char>, borrower: Seq<char>, span: Span, at: Span) -> RawDiagV {
    RawDiagV {
        code: "E0381"@,
        message: "cannot borrow `"@ + name + "` exclusively while it is borrowed by `"@ + borrower + "`"@,
        primary: span,
        suggestion: Some((span, name, "a `ref` argument is exclusive access, and `"@ + borrower + "` is still reading `"@ + name + "`. Give each exclusive user its own value, or finish with `"@ + borrower + "` first."@)),
        label: Some((at, "`"@ + borrower + "` borrows `"@ + name + "` here"@)),
    }
}

pub fn report_ref_while_borrowed(name: &str, borrower: &str, span: Span, at: Span) -> (r: RawDiag)
    ensures
        r@ == ref_while_borrowed(name@, borrower@, span, at),
{
    let mut message = "cannot borrow `".to_owned();
    message.append(name);
    message.append("` exclusively while it is borrowed by `");
    message.append(borrower);
    message.append("`");
    let replacement = name.to_owned();
    let mut hint = "a `ref` argument is exclusive access, and `".to_owned();
    hint.append(borrower);
    hint.append("` is still reading `");
    hint.append(name);
    hint.append("`. Give each exclusive user its own value, or finish with `");
    hint.append(borrower);
    hint.append("` first.");
    let mut text = "`".to_owned();
    text.append(borrower);
    text.append("` borrows `");
    text.append(name);
    text.append("` here");
    let label = Some((at, text));
    RawDiag {
        code: "E0381",
        message,
        primary: span,
        suggestion: Some((span, replacement, hint)),
        label,
    }
}

/// A write to a binding that is borrowed.
pub open spec fn write_while_borrowed(name: Seq<char>, borrower: Seq<char>, span: Span, at: Span) -> RawDiagV {
    RawDiagV {
        code: "E0381"@,
        message: "cannot write to `"@ + name + "` while it is borrowed by `"@ + borrower + "`"@,
        primary: span,
        suggestion: Some((span, name, "`"@ + borrower + "` reads memory owned by `"@ + name + "`, so a write here could be observed half-done. Finish with `"@ + borrower + "` (let it go out of scope) before writing, or write before the borrow is established."@)),
        label: Some((at, "`"@ + borrower + "` borrows `"@ + name + "` here"@)),
    }
}

pub fn report_write_while_borrowed(name: &str, borrower: &str, span: Span, at: Span) -> (r: RawDiag)
    ensures
        r@ == write_while_borrowed(name@, borrower@, span, at),
{
    let mut message = "cannot write to `".to_owned();
    message.append(name);
    message.append("` while it is borrowed by `");
    message.append(borrower);
    message.append("`");
    let replacement = name.to_owned();
    let mut hint = "`".to_owned();
    hint.append(borrower);
    hint.append("` reads memory owned by `");
    hint.append(name);
    hint.append("`, so a write here could be observed half-done. Finish with `");
    hint.append(borrower);
    hint.append("` (let it go out of scope) before writing, or write before the borrow is established.");
    let mut text = "`".to_owned();
    text.append(borrower);
    text.append("` borrows `");
    text.append(name);
    text.append("` here");
    let label = Some((at, text));
    RawDiag {
        code: "E0381",
        message,
        primary: span,
        suggestion: Some((span, replacement, hint)),
        label,
    }
}

/// A mutating call on a receiver that is shared.
pub open spec fn call_while_shared(name: Seq<char>, method: Seq<char>, borrower: Seq<char>, span: Span, at: Option<Span>) -> RawDiagV {
    RawDiagV {
        code: "E0381"@,
        message: "cannot call `"@ + name + "."@ + method + "(...)` while `"@ + name + "` is shared-borrowed by `"@ + borrower + "`"@,
        primary: span,
        suggestion: Some((span, name, "method calls on `"@ + name + "` may require exclusive access; while `"@ + borrower + "` is alive, no overlapping access is admitted. Drop `"@ + borrower + "` before calling the method, or restructure so the call happens before the borrow is established."@)),
        label: match at {
            Some(s) => Some((s, "`"@ + borrower + "` borrows `"@ + name + "` here"@)),
            None => None,
        },
    }
}

pub fn report_call_while_shared(name: &str, method: &str, borrower: &str, span: Span, at: Option<Span>) -> (r: RawDiag)
    ensures
        r@ == call_while_shared(name@, method@, borrower@, span, at),
{
    let mut message = "cannot call `".to_owned();
    message.append(name);
    message.append(".");
    message.append(method);
    message.append("(...)` while `");
    message.append(name);
    message.append("` is shared-borrowed by `");
    message.append(borrower);
    message.append("`");
    let replacement = name.to_owned();
    let mut hint = "method calls on `".to_owned();
    hint.append(name);
    hint.append("` may require exclusive access; while `");
    hint.append(borrower);
    hint.append("` is alive, no overlapping access is admitted. Drop `");
    hint.append(borrower);
    hint.append("` before calling the method, or restructure so the call happens before the borrow is established.");
    let label = match at {
        Some(s) => {
            let mut text = "`".to_owned();
            text.append(borrower);
            text.append("` borrows `");
            text.append(name);
            text.append("` here");
            Some((s, text))
        },
        None => None,
    };
    RawDiag {
        code: "E0381",
        message,
        primary: span,
        suggestion: Some((span, replacement, hint)),
        label,
    }
}

/// A call on a receiver that is borrowed exclusively.
pub open spec fn call_while_exclusive(name: Seq<char>, method: Seq<char>, borrower: Seq<char>, span: Span, at: Option<Span>) -> RawDiagV {
    RawDiagV {
        code: "E0383"@,
        message: "cannot call `"@ + name + "."@ + method + "(...)` while `"@ + name + "` is exclusively borrowed by `"@ + borrower + "`"@,
        primary: span,
        suggestion: Some((span, name, "while `"@ + borrower + "` is alive, no overlapping access to `"@ + name + "` is admitted."@)),
        label: match at {
            Some(s) => Some((s, "`"@ + borrower + "` exclusively borrows `"@ + name + "` here"@)),
            None => None,
        },
    }
}

pub fn report_call_while_exclusive(name: &str, method: &str, borrower: &str, span: Span, at: Option<Span>) -> (r: RawDiag)
    ensures
        r@ == call_while_exclusive(name@, method@, borrower@, span, at),
{
    let mut message = "cannot call `".to_owned();
    message.append(name);
    message.append(".");
    message.append(method);
    message.append("(...)` while `");
    message.append(name);
    message.append("` is exclusively borrowed by `");
    message.append(borrower);
    message.append("`");
    let replacement = name.to_owned();
    let mut hint = "while `".to_owned();
    hint.append(borrower);
    hint.append("` is alive, no overlapping access to `");
    hint.append(name);
    hint.append("` is admitted.");
    let label = match at {
        Some(s) => {
            let mut text = "`".to_owned();
            text.append(borrower);
            text.append("` exclusively borrows `");
            text.append(name);
            text.append("` here");
            Some((s, text))
        },
        None => None,
    };
    RawDiag {
        code: "E0383",
        message,
        primary: span,
        suggestion: Some((span, replacement, hint)),
        label,
    }
}

/// A move of a binding that is borrowed exclusively.
pub open spec fn move_of_exclusive(name: Seq<char>, borrower: Seq<char>, span: Span, at: Span) -> RawDiagV {
    RawDiagV {
        code: "E0372"@,
        message: "cannot move `"@ + name + "` while it is exclusively borrowed by `"@ + borrower + "`"@,
        primary: span,
        suggestion: Some((span, Seq::empty(), "the exclusive borrow `"@ + borrower + "` is the only borrower allowed while it is alive; moving `"@ + name + "` would invalidate it. Drop `"@ + borrower + "` before moving `"@ + name + "`."@)),
        label: Some((at, "`"@ + borrower + "` borrows `"@ + name + "` here"@)),
    }
}

pub fn report_move_of_exclusive(name: &str, borrower: &str, span: Span, at: Span) -> (r: RawDiag)
    ensures
        r@ == move_of_exclusive(name@, borrower@, span, at),
{
    let mut message = "cannot move `".to_owned();
    message.append(name);
    message.append("` while it is exclusively borrowed by `");
    message.append(borrower);
    message.append("`");
    let replacement = String::new();
    let mut hint = "the exclusive borrow `".to_owned();
    hint.append(borrower);
    hint.append("` is the only borrower allowed while it is alive; moving `");
    hint.append(name);
    hint.append("` would invalidate it. Drop `");
    hint.append(borrower);
    hint.append("` before moving `");
    hint.append(name);
    hint.append("`.");
    let mut text = "`".to_owned();
    text.append(borrower);
    text.append("` borrows `");
    text.append(name);
    text.append("` here");
    let label = Some((at, text));
    RawDiag {
        code: "E0372",
        message,
        primary: span,
        suggestion: Some((span, replacement, hint)),
        label,
    }
}

/// A move of a binding that is borrowed.
pub open spec fn move_of_shared(name: Seq<char>, borrower: Seq<char>, span: Span, at: Span) -> RawDiagV {
    RawDiagV {
        code: "E0372"@,
        message: "cannot move `"@ + name + "` while it is shared borrowed by `"@ + borrower + "`"@,
        primary: span,
        suggestion: Some((span, Seq::empty(), "the value returned to `"@ + borrower + "` borrows from `"@ + name + "`; while `"@ + borrower + "` is alive, `"@ + name + "` cannot be moved. Either drop `"@ + borrower + "` before moving `"@ + name + "`, or clone `"@ + borrower + "` if you need both bindings to outlive the move."@)),
        label: Some((at, "`"@ + borrower + "` borrows `"@ + name + "` here"@)),
    }
}

pub fn report_move_of_shared(name: &str, borrower: &str, span: Span, at: Span) -> (r: RawDiag)
    ensures
        r@ == move_of_shared(name@, borrower@, span, at),
{
    let mut message = "cannot move `".to_owned();
    message.append(name);
    message.append("` while it is shared borrowed by `");
    message.append(borrower);
    message.append("`");
    let replacement = String::new();
    let mut hint = "the value returned to `".to_owned();
    hint.append(borrower);
    hint.append("` borrows from `");
    hint.append(name);
    hint.append("`; while `");
    hint.append(borrower);
    hint.append("` is alive, `");
    hint.append(name);
    hint.append("` cannot be moved. Either drop `");
    hint.append(borrower);
    hint.append("` before moving `");
    hint.append(name);
    hint.append("`, or clone `");
    hint.append(borrower);
    hint.append("` if you need both bindings to outlive the move.");
    let mut text = "`".to_owned();
    text.append(borrower);
    text.append("` borrows `");
    text.append(name);
    text.append("` here");
    let label = Some((at, text));
    RawDiag {
        code: "E0372",
        message,
        primary: span,
        suggestion: Some((span, replacement, hint)),
        label,
    }
}

/// A move of a binding with a part that is borrowed.
pub open spec fn move_of_parent(name: Seq<char>, sub: Seq<char>, flavor: Seq<char>, borrower: Seq<char>, span: Span, at: Span) -> RawDiagV {
    RawDiagV {
        code: "E0372"@,
        message: "cannot move `"@ + name + "` while sub-place `"@ + sub + "` is "@ + flavor + " borrowed by `"@ + borrower + "`"@,
        primary: span,
        suggestion: Some((span, Seq::empty(), "moving `"@ + name + "` invalidates all of its sub-places, including `"@ + sub + "`. Drop `"@ + borrower + "` before moving `"@ + name + "`."@)),
        label: Some((at, "`"@ + borrower + "` borrows `"@ + name + "` here"@)),
    }
}

pub fn report_move_of_parent(name: &str, sub: &str, flavor: &str, borrower: &str, span: Span, at: Span) -> (r: RawDiag)
    ensures
        r@ == move_of_parent(name@, sub@, flavor@, borrower@, span, at),
{
    let mut message = "cannot move `".to_owned();
    message.append(name);
    message.append("` while sub-place `");
    message.append(sub);
    message.append("` is ");
    message.append(flavor);
    message.append(" borrowed by `");
    message.append(borrower);
    message.append("`");
    let replacement = String::new();
    let mut hint = "moving `".to_owned();
    hint.append(name);
    hint.append("` invalidates all of its sub-places, including `");
    hint.append(sub);
    hint.append("`. Drop `");
    hint.append(borrower);
    hint.append("` before moving `");
    hint.append(name);
    hint.append("`.");
    let mut text = "`".to_owned();
    text.append(borrower);
    text.append("` borrows `");
    text.append(name);
    text.append("` here");
    let label = Some((at, text));
    RawDiag {
        code: "E0372",
        message,
        primary: span,
        suggestion: Some((span, replacement, hint)),
        label,
    }
}

/// An owner that leaves its scope while it is borrowed.
pub open spec fn outlived(owner: Seq<char>, borrower: Seq<char>, span: Span) -> RawDiagV {
    RawDiagV {
        code: "E0514"@,
        message: "`"@ + owner + "` does not live long enough: `"@ + borrower + "` still borrows it when `"@ + owner + "` goes out of scope"@,
        primary: span,
        suggestion: Some((span, Seq::empty(), "`"@ + borrower + "` outlives this block but views memory owned by `"@ + owner + "`, which is dropped at the block's end. Declare `"@ + borrower + "` inside the block, extend `"@ + owner + "`'s scope past the last use of `"@ + borrower + "`, or store an owned value instead (`Text`, or `text::intern` for a process-lifetime view)."@)),
        label: None,
    }
}

pub fn report_outlived(owner: &str, borrower: &str, span: Span) -> (r: RawDiag)
    ensures
        r@ == outlived(owner@, borrower@, span),
{
    let mut message = "`".to_owned();
    message.append(owner);
    message.append("` does not live long enough: `");
    message.append(borrower);
    message.append("` still borrows it when `");
    message.append(owner);
    message.append("` goes out of scope");
    let replacement = String::new();
    let mut hint = "`".to_owned();
    hint.append(borrower);
    hint.append("` outlives this block but views memory owned by `");
    hint.append(owner);
    hint.append("`, which is dropped at the block's end. Declare `");
    hint.append(borrower);
    hint.append("` inside the block, extend `");
    hint.append(owner);
    hint.append("`'s scope past the last use of `");
    hint.append(borrower);
    hint.append("`, or store an owned value instead (`Text`, or `text::intern` for a process-lifetime view).");
    RawDiag {
        code: "E0514",
        message,
        primary: span,
        suggestion: Some((span, replacement, hint)),
        label: None,
    }
}

/// A result that may borrow from more than one parameter.
pub open spec fn ambiguous_return(name: Seq<char>, span: Span) -> RawDiagV {
    RawDiagV {
        code: "E0384"@,
        message: "cannot infer which parameter the return of `"@ + name + "` borrows from"@,
        primary: span,
        suggestion: Some((span, Seq::empty(), "different return paths borrow from different parameters, so the borrow checker cannot pin the result to a single source. Restructure so every return path borrows from the SAME parameter (a view return is tied to exactly one non-Copy parameter), or return an owned value instead of a view."@)),
        label: None,
    }
}

pub fn report_ambiguous_return(name: &str, span: Span) -> (r: RawDiag)
    ensures
        r@ == ambiguous_return(name@, span),
{
    let mut message = "cannot infer which parameter the return of `".to_owned();
    message.append(name);
    message.append("` borrows from");
    let replacement = String::new();
    let hint = "different return paths borrow from different parameters, so the borrow checker cannot pin the result to a single source. Restructure so every return path borrows from the SAME parameter (a view return is tied to exactly one non-Copy parameter), or return an owned value instead of a view.".to_owned();
    RawDiag {
        code: "E0384",
        message,
        primary: span,
        suggestion: Some((span, replacement, hint)),
        label: None,
    }
}

/// A returned view of something that dies with the call.
pub open spec fn returned_view(owner: Seq<char>, span: Span) -> RawDiagV {
    RawDiagV {
        code: "E0513"@,
        message: "cannot return a borrow of "@ + owner + ": it owns heap that is freed when the function returns, so the returned view would dangle. Return an owned value (`Text` / `Vec[T]`) instead, or borrow from a non-`take` parameter"@,
        primary: span,
        suggestion: None,
        label: None,
    }
}

pub fn report_returned_view(owner: &str, span: Span) -> (r: RawDiag)
    ensures
        r@ == returned_view(owner@, span),
{
    let mut message = "cannot return a borrow of ".to_owned();
    message.append(owner);
    message.append(": it owns heap that is freed when the function returns, so the returned view would dangle. Return an owned value (`Text` / `Vec[T]`) instead, or borrow from a non-`take` parameter");
    RawDiag {
        code: "E0513",
        message,
        primary: span,
        suggestion: None,
        label: None,
    }
}

/// A returned value that holds such a view.
pub open spec fn returned_carrier(owner: Seq<char>, span: Span) -> RawDiagV {
    RawDiagV {
        code: "E0513"@,
        message: "the returned value holds a view of "@ + owner + ": it owns heap that is freed when the function returns, so the stored view would dangle. Store an owned `Text` / `Vec[T]` in the field, or borrow the view from a non-`take` parameter"@,
        primary: span,
        suggestion: None,
        label: None,
    }
}

pub fn report_returned_carrier(owner: &str, span: Span) -> (r: RawDiag)
    ensures
        r@ == returned_carrier(owner@, span),
{
    let mut message = "the returned value holds a view of ".to_owned();
    message.append(owner);
    message.append(": it owns heap that is freed when the function returns, so the stored view would dangle. Store an owned `Text` / `Vec[T]` in the field, or borrow the view from a non-`take` parameter");
    RawDiag {
        code: "E0513",
        message,
        primary: span,
        suggestion: None,
        label: None,
    }
}

/// A part of a returned aggregate that is such a view.
pub open spec fn escaping_leaf(owner: Seq<char>, span: Span) -> RawDiagV {
    RawDiagV {
        code: "E0513"@,
        message: "view of "@ + owner + " escapes inside the returned value: it is freed when the function returns, so the stored view would dangle. Store an owned `Text` / `Vec[T]`, or borrow the view from a non-`take` parameter"@,
        primary: span,
        suggestion: None,
        label: None,
    }
}

pub fn report_escaping_leaf(owner: &str, span: Span) -> (r: RawDiag)
    ensures
        r@ == escaping_leaf(owner@, span),
{
    let mut message = "view of ".to_owned();
    message.append(owner);
    message.append(" escapes inside the returned value: it is freed when the function returns, so the stored view would dangle. Store an owned `Text` / `Vec[T]`, or borrow the view from a non-`take` parameter");
    RawDiag {
        code: "E0513",
        message,
        primary: span,
        suggestion: None,
        label: None,
    }
}

/// A view stored through a raw pointer.
pub open spec fn raw_store(span: Span) -> RawDiagV {
    RawDiagV {
        code: "E0516"@,
        message: "storing a view through a raw pointer without a declared flow: no analysis can see where these bytes end up, so the function must declare it — `#[keeps(this)]` if the view survives in the receiver, `#[keeps(nothing)]` if the bytes are copied and nothing borrowed escapes"@,
        primary: span,
        suggestion: None,
        label: None,
    }
}

pub fn report_raw_store(span: Span) -> (r: RawDiag)
    ensures
        r@ == raw_store(span),
{
    let message = "storing a view through a raw pointer without a declared flow: no analysis can see where these bytes end up, so the function must declare it — `#[keeps(this)]` if the view survives in the receiver, `#[keeps(nothing)]` if the bytes are copied and nothing borrowed escapes".to_owned();
    RawDiag {
        code: "E0516",
        message,
        primary: span,
        suggestion: None,
        label: None,
    }
}

/// A view that a method returns of a temporary.
pub open spec fn view_of_temporary(ty: Seq<char>, method: Seq<char>, span: Span) -> RawDiagV {
    RawDiagV {
        code: "E0513"@,
        message: "cannot bind the view returned by `."@ + method + "()` on a temporary `"@ + ty + "`: the temporary is dropped at the end of this statement, so the view would dangle. Bind the owner to a named local first (`let owner = ...; owner."@ + method + "()`)"@,
        primary: span,
        suggestion: None,
        label: None,
    }
}

pub fn report_view_of_temporary(ty: &str, method: &str, span: Span) -> (r: RawDiag)
    ensures
        r@ == view_of_temporary(ty@, method@, span),
{
    let mut message = "cannot bind the view returned by `.".to_owned();
    message.append(method);
    message.append("()` on a temporary `");
    message.append(ty);
    message.append("`: the temporary is dropped at the end of this statement, so the view would dangle. Bind the owner to a named local first (`let owner = ...; owner.");
    message.append(method);
    message.append("()`)");
    RawDiag {
        code: "E0513",
        message,
        primary: span,
        suggestion: None,
        label: None,
    }
}

/// A view of an interpolated string.
pub open spec fn view_of_interpolation(span: Span) -> RawDiagV {
    RawDiagV {
        code: "E0513"@,
        message: "cannot bind a view of a string interpolation: it builds an owned string in an anonymous slot that nothing frees and nothing keeps, so the view is backed by storage with no lifetime. Make the binding owned (`let s: Text = \"…\";`) and take the view from it"@,
        primary: span,
        suggestion: None,
        label: None,
    }
}

pub fn report_view_of_interpolation(span: Span) -> (r: RawDiag)
    ensures
        r@ == view_of_interpolation(span),
{
    let message = "cannot bind a view of a string interpolation: it builds an owned string in an anonymous slot that nothing frees and nothing keeps, so the view is backed by storage with no lifetime. Make the binding owned (`let s: Text = \"…\";`) and take the view from it".to_owned();
    RawDiag {
        code: "E0513",
        message,
        primary: span,
        suggestion: None,
        label: None,
    }
}

/// A view of an owner that has no name.
pub open spec fn view_of_rvalue(ty: Seq<char>, span: Span) -> RawDiagV {
    RawDiagV {
        code: "E0513"@,
        message: "cannot bind a view of a temporary `"@ + ty + "`: the coercion spills the owner to an anonymous slot that nothing frees and nothing keeps, so the view is backed by storage with no lifetime. Bind the owner first (`let owner: "@ + ty + " = ...;` then take the view), or keep the binding owned"@,
        primary: span,
        suggestion: None,
        label: None,
    }
}

pub fn report_view_of_rvalue(ty: &str, span: Span) -> (r: RawDiag)
    ensures
        r@ == view_of_rvalue(ty@, span),
{
    let mut message = "cannot bind a view of a temporary `".to_owned();
    message.append(ty);
    message.append("`: the coercion spills the owner to an anonymous slot that nothing frees and nothing keeps, so the view is backed by storage with no lifetime. Bind the owner first (`let owner: ");
    message.append(ty);
    message.append(" = ...;` then take the view), or keep the binding owned");
    RawDiag {
        code: "E0513",
        message,
        primary: span,
        suggestion: None,
        label: None,
    }
}

/// A view of a local that is stored where it outlives the local.
pub open spec fn stored_local_view(owner: Seq<char>, dest: Seq<char>, span: Span) -> RawDiagV {
    RawDiagV {
        code: "E0513"@,
        message: "cannot store a view of "@ + owner + " into "@ + dest + ": the view's owner is freed when the function returns, but "@ + dest + " outlives it, so the stored view would dangle"@,
        primary: span,
        suggestion: None,
        label: None,
    }
}

pub fn report_stored_local_view(owner: &str, dest: &str, span: Span) -> (r: RawDiag)
    ensures
        r@ == stored_local_view(owner@, dest@, span),
{
    let mut message = "cannot store a view of ".to_owned();
    message.append(owner);
    message.append(" into ");
    message.append(dest);
    message.append(": the view's owner is freed when the function returns, but ");
    message.append(dest);
    message.append(" outlives it, so the stored view would dangle");
    RawDiag {
        code: "E0513",
        message,
        primary: span,
        suggestion: None,
        label: None,
    }
}

/// A view parameter that is stored where nothing ties it to its owner.
pub open spec fn stored_param_view(view: Seq<char>, dest: Seq<char>, hint: Seq<char>, span: Span) -> RawDiagV {
    RawDiagV {
        code: "E0515"@,
        message: "cannot store the view parameter `"@ + view + "` into "@ + dest + ": the caller only guarantees `"@ + view + "`'s bytes for this call, but "@ + dest + " outlives it, so the stored view would dangle."@ + hint,
        primary: span,
        suggestion: None,
        label: None,
    }
}

pub fn report_stored_param_view(view: &str, dest: &str, hint: &str, span: Span) -> (r: RawDiag)
    ensures
        r@ == stored_param_view(view@, dest@, hint@, span),
{
    let mut message = "cannot store the view parameter `".to_owned();
    message.append(view);
    message.append("` into ");
    message.append(dest);
    message.append(": the caller only guarantees `");
    message.append(view);
    message.append("`'s bytes for this call, but ");
    message.append(dest);
    message.append(" outlives it, so the stored view would dangle.");
    message.append(hint);
    RawDiag {
        code: "E0515",
        message,
        primary: span,
        suggestion: None,
        label: None,
    }
}

/// A stored value that captures a local.
pub open spec fn captured_store(root: Seq<char>, via: Seq<char>, dest: Seq<char>, span: Span) -> RawDiagV {
    RawDiagV {
        code: "E0365"@,
        message: "storing a value that captures the address of `"@ + root + "`"@ + via + " into "@ + dest + ": `"@ + root + "` is a local, so a handler bound to it would point at a stack slot that is freed when this function returns, while "@ + dest + " outlives it. Give it storage that outlives the stored value — a field of `this`, a `static`, or a `Box`"@,
        primary: span,
        suggestion: None,
        label: None,
    }
}

pub fn report_captured_store(root: &str, via: &str, dest: &str, span: Span) -> (r: RawDiag)
    ensures
        r@ == captured_store(root@, via@, dest@, span),
{
    let mut message = "storing a value that captures the address of `".to_owned();
    message.append(root);
    message.append("`");
    message.append(via);
    message.append(" into ");
    message.append(dest);
    message.append(": `");
    message.append(root);
    message.append("` is a local, so a handler bound to it would point at a stack slot that is freed when this function returns, while ");
    message.append(dest);
    message.append(" outlives it. Give it storage that outlives the stored value — a field of `this`, a `static`, or a `Box`");
    RawDiag {
        code: "E0365",
        message,
        primary: span,
        suggestion: None,
        label: None,
    }
}

/// An argument that captures a local.
pub open spec fn captured_arg(root: Seq<char>, span: Span) -> RawDiagV {
    RawDiagV {
        code: "E0365"@,
        message: "passing a value that captures the address of `"@ + root + "` to a call: `"@ + root + "` is a local, so if the callee keeps the value — a registry, a retained view tree, a static — the handler bound to `"@ + root + "` would point at a stack slot freed when this function returns. Give `"@ + root + "` storage that outlives the call — a field of `this`, a `static`, or a `Box`"@,
        primary: span,
        suggestion: None,
        label: None,
    }
}

pub fn report_captured_arg(root: &str, span: Span) -> (r: RawDiag)
    ensures
        r@ == captured_arg(root@, span),
{
    let mut message = "passing a value that captures the address of `".to_owned();
    message.append(root);
    message.append("` to a call: `");
    message.append(root);
    message.append("` is a local, so if the callee keeps the value — a registry, a retained view tree, a static — the handler bound to `");
    message.append(root);
    message.append("` would point at a stack slot freed when this function returns. Give `");
    message.append(root);
    message.append("` storage that outlives the call — a field of `this`, a `static`, or a `Box`");
    RawDiag {
        code: "E0365",
        message,
        primary: span,
        suggestion: None,
        label: None,
    }
}

/// A returned value that captures a local.
pub open spec fn captured_return(root: Seq<char>, via: Seq<char>, span: Span) -> RawDiagV {
    RawDiagV {
        code: "E0365"@,
        message: "returning a value that captures the address of `"@ + root + "`"@ + via + ": it is a local, so a handler bound to it would point at a stack slot that is freed when this function returns. Give it storage that outlives the returned value — a field of `this`, a `static`, or a `Box`"@,
        primary: span,
        suggestion: None,
        label: None,
    }
}

pub fn report_captured_return(root: &str, via: &str, span: Span) -> (r: RawDiag)
    ensures
        r@ == captured_return(root@, via@, span),
{
    let mut message = "returning a value that captures the address of `".to_owned();
    message.append(root);
    message.append("`");
    message.append(via);
    message.append(": it is a local, so a handler bound to it would point at a stack slot that is freed when this function returns. Give it storage that outlives the returned value — a field of `this`, a `static`, or a `Box`");
    RawDiag {
        code: "E0365",
        message,
        primary: span,
        suggestion: None,
        label: None,
    }
}

} // verus!
