use vstd::prelude::*;

verus! {

/// What the unsafety check reads of an expression of a function body.
#[derive(Clone, Copy, Debug, PartialEq, Eq, Structural)]
pub enum ExprFacts {
    /// A call of a function named by a path; `callee_unsafe` when that
    /// function is declared `unsafe`.
    Call { callee_unsafe: bool },
    /// A method call; `callee_unsafe` when the method it resolves to is
    /// declared `unsafe`.
    MethodCall { callee_unsafe: bool },
    /// A dereference; `raw_pointer` when its operand is a raw pointer.
    Deref { raw_pointer: bool },
    /// A field access; `of_union` when its base is a union.
    Field { of_union: bool },
    /// Any other expression.
    Other,
}

/// A node of a function body, in the order the check visits them.
#[derive(Clone, Copy, Debug, PartialEq, Eq, Structural)]
pub enum BodyNode {
    /// A block; `true` for an `unsafe` block.
    Block(bool),
    /// An expression.
    Expr(ExprFacts),
}

/// The expression needs `unsafe`.
pub open spec fn expr_is_unsafe(e: ExprFacts) -> bool {
    match e {
        ExprFacts::Call { callee_unsafe } => callee_unsafe,
        ExprFacts::MethodCall { callee_unsafe } => callee_unsafe,
        ExprFacts::Deref { raw_pointer } => raw_pointer,
        ExprFacts::Field { of_union } => of_union,
        ExprFacts::Other => false,
    }
}

/// The node is, or needs, `unsafe`.
pub open spec fn node_is_unsafe(n: BodyNode) -> bool {
    match n {
        BodyNode::Block(unsafe_block) => unsafe_block,
        BodyNode::Expr(e) => expr_is_unsafe(e),
    }
}

/// Some node of the body is, or needs, `unsafe`.
pub open spec fn body_has_unsafe(body: Seq<BodyNode>) -> bool {
    exists|i: int| 0 <= i < body.len() && node_is_unsafe(#[trigger] body[i])
}

/// A function contains unsafe code: it is declared `unsafe`, or it has a body
/// (defined in this crate) with a node that is, or needs, `unsafe`.
pub open spec fn function_has_unsafe(sig_unsafe: bool, body: Option<Seq<BodyNode>>) -> bool {
    sig_unsafe || (body is Some && body_has_unsafe(body->0))
}

/// Checks functions for unsafe code.
pub struct ContainUnsafe {
    has_unsafe: bool,
}

impl ContainUnsafe {
    /// Whether unsafe code was found.
    pub closed spec fn found(&self) -> bool {
        self.has_unsafe
    }

    /// A checker that has found nothing.
    pub fn new() -> (c: Self)
        ensures
            !c.found(),
    {
        Self { has_unsafe: false }
    }

    /// Whether `def` contains unsafe code: `sig_unsafe` when its signature is
    /// `unsafe`, `body` its body's nodes when it is defined in this crate.
    pub fn check_def_id(&mut self, sig_unsafe: bool, body: Option<&Vec<BodyNode>>) -> (r: bool)
        ensures
            r == function_has_unsafe(
                sig_unsafe,
                match body {
                    Some(b) => Some(b@),
                    None => None,
                },
            ),
            !sig_unsafe ==> final(self).found() == r,
    {
        self.has_unsafe = false;
        if sig_unsafe {
            return true;
        }
        if let Some(b) = body {
            self.check_function(b);
        }
        self.has_unsafe
    }

    /// Visits every node of a body; returns whether unsafe code was found so
    /// far.
    pub fn check_function(&mut self, body: &Vec<BodyNode>) -> (r: bool)
        ensures
            final(self).found() == (old(self).found() || body_has_unsafe(body@)),
            r == final(self).found(),
    {
        let mut i: usize = 0;
        while i < body.len()
            invariant
                i <= body.len(),
                self.found() == (old(self).found() || body_has_unsafe(body@.take(i as int))),
            decreases body.len() - i,
        {
            match body[i] {
                BodyNode::Block(unsafe_block) => self.visit_block(unsafe_block),
                BodyNode::Expr(e) => self.visit_expr(e),
            }
            proof {
                let t = body@.take(i + 1);
                assert(t[i as int] == body@[i as int]);
                if body_has_unsafe(body@.take(i as int)) {
                    let j = choose|j: int| 0 <= j < i && node_is_unsafe(#[trigger] body@.take(i as int)[j]);
                    assert(t[j] == body@.take(i as int)[j]);
                }
                if body_has_unsafe(t) {
                    let j = choose|j: int| 0 <= j < i + 1 && node_is_unsafe(#[trigger] t[j]);
                    if j < i {
                        assert(body@.take(i as int)[j] == t[j]);
                    }
                }
            }
            i = i + 1;
        }
        proof {
            assert(body@.take(body.len() as int) == body@);
        }
        self.has_unsafe
    }

    /// Visits a block: an `unsafe` block is unsafe code.
    pub fn visit_block(&mut self, unsafe_block: bool)
        ensures
            final(self).found() == (old(self).found() || unsafe_block),
    {
        if unsafe_block {
            self.has_unsafe = true;
        }
    }

    /// Visits an expression: a call of an `unsafe` function or method, a
    /// dereference of a raw pointer and a read of a union's field are unsafe
    /// code.
    pub fn visit_expr(&mut self, expr: ExprFacts)
        ensures
            final(self).found() == (old(self).found() || expr_is_unsafe(expr)),
    {
        match expr {
            ExprFacts::Call { callee_unsafe } => {
                if callee_unsafe {
                    self.has_unsafe = true;
                }
            },
            ExprFacts::MethodCall { callee_unsafe } => {
                if callee_unsafe {
                    self.has_unsafe = true;
                }
            },
            ExprFacts::Deref { raw_pointer } => {
                if raw_pointer {
                    self.has_unsafe = true;
                }
            },
            ExprFacts::Field { of_union } => {
                if of_union {
                    self.has_unsafe = true;
                }
            },
            ExprFacts::Other => {},
        }
    }
}

/// Whether a function contains unsafe code: `sig_unsafe` when its signature
/// is `unsafe`, `body` its body's nodes when it is defined in this crate.
pub fn contains_unsafe(sig_unsafe: bool, body: Option<&Vec<BodyNode>>) -> (r: bool)
    ensures
        r == function_has_unsafe(
            sig_unsafe,
            match body {
                Some(b) => Some(b@),
                None => None,
            },
        ),
{
    let mut checker = ContainUnsafe::new();
    checker.check_def_id(sig_unsafe, body)
}


/// The node is an unsafe block, a call or method call of an `unsafe`
/// function, a dereference of a raw pointer, or a read of a union's field.
pub open spec fn is_unsafe_operation(n: BodyNode) -> bool {
    n == BodyNode::Block(true) || n == BodyNode::Expr(ExprFacts::Call { callee_unsafe: true }) || n
        == BodyNode::Expr(ExprFacts::MethodCall { callee_unsafe: true }) || n == BodyNode::Expr(
        ExprFacts::Deref { raw_pointer: true },
    ) || n == BodyNode::Expr(ExprFacts::Field { of_union: true })
}

/// A function contains unsafe code exactly when its signature is `unsafe`, or
/// it has a body with an unsafe block, a call or method call of an `unsafe`
/// function, a dereference of a raw pointer or a read of a union's field; in
/// particular safe blocks, calls of safe functions, dereferences of
/// references and field reads of structs do not count.
pub proof fn law_unsafe_code_is_unsafe_operations(body: Option<Seq<BodyNode>>)
    ensures
        function_has_unsafe(true, body),
        body is None ==> !function_has_unsafe(false, body),
        body matches Some(b) ==> (function_has_unsafe(false, body) <==> exists|i: int|
            0 <= i < b.len() && is_unsafe_operation(#[trigger] b[i])),
{
    if let Some(b) = body {
        assert forall|i: int| 0 <= i < b.len() implies (node_is_unsafe(#[trigger] b[i]) <==> is_unsafe_operation(b[i])) by {
            match b[i] {
                BodyNode::Block(u) => {},
                BodyNode::Expr(e) => match e {
                    ExprFacts::Call { callee_unsafe } => {},
                    ExprFacts::MethodCall { callee_unsafe } => {},
                    ExprFacts::Deref { raw_pointer } => {},
                    ExprFacts::Field { of_union } => {},
                    ExprFacts::Other => {},
                },
            }
        }
    }
}

} // verus!
