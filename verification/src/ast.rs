//! The part of a module's syntax tree that lowering a lazy export looks at.
//!
//! Everything the lowering only moves around is a node of the host's own tree and is carried
//! as a value of the type parameter `N`.

use vstd::prelude::*;

verus! {

/// A module's top-level statements.
#[derive(Debug, PartialEq)]
pub struct Program<N> {
    pub body: Vec<Statement<N>>,
}

/// A top-level statement.
#[derive(Debug, PartialEq)]
pub enum Statement<N> {
    /// `<expression>;`
    ExpressionStatement(Expression<N>),
    /// `module.exports = <expression>;`
    ModuleExports(Expression<N>),
    /// `export default <expression>;`
    ExportDefault(Expression<N>),
    /// `var <local> = <init>;`
    VarDeclaration { local: String, init: Expression<N> },
    /// `export { <local> as <exported>, … };`
    ExportNamed { specifiers: Vec<ExportSpecifier> },
    /// Any other statement.
    Other(N),
}

/// One `<local> as <exported>` of an export list.
#[derive(Debug, PartialEq)]
pub struct ExportSpecifier {
    pub local: String,
    pub exported: String,
    /// Whether `exported` is a legal identifier; it is written as a string literal otherwise.
    pub exported_is_identifier: bool,
}

/// An expression.
#[derive(Debug, PartialEq)]
pub enum Expression<N> {
    /// `(<expression>)`
    ParenthesizedExpression(Box<Expression<N>>),
    /// `{ <property>, … }`
    ObjectExpression(Vec<ObjectPropertyKind<N>>),
    /// A reference to a variable.
    Identifier(String),
    /// Any other expression.
    Other(N),
}

/// A member of an object literal.
#[derive(Debug, PartialEq)]
pub enum ObjectPropertyKind<N> {
    ObjectProperty(ObjectProperty<N>),
    /// `...<expression>`
    SpreadProperty(Expression<N>),
}

/// `<key>: <value>`, `[<key>]: <value>` when computed, `<value>` alone when shorthand.
#[derive(Debug, PartialEq)]
pub struct ObjectProperty<N> {
    pub key: PropertyKey<N>,
    pub value: Expression<N>,
    pub shorthand: bool,
    pub computed: bool,
}

/// The key of an object property.
#[derive(Debug, PartialEq)]
pub enum PropertyKey<N> {
    StaticIdentifier(String),
    StringLiteral(String),
    /// Any other key, with the name it has without being evaluated, if it has one.
    Other { node: N, static_name: Option<String> },
}

/// The mathematical value of a [`Program`]: its statements in order.
pub type ProgramView<N> = Seq<StatementView<N>>;

/// The mathematical value of a [`Statement`].
pub enum StatementView<N> {
    ExpressionStatement(ExpressionView<N>),
    ModuleExports(ExpressionView<N>),
    ExportDefault(ExpressionView<N>),
    VarDeclaration { local: Seq<char>, init: ExpressionView<N> },
    ExportNamed { specifiers: Seq<ExportSpecifierView> },
    Other(N),
}

/// The mathematical value of an [`ExportSpecifier`].
pub struct ExportSpecifierView {
    pub local: Seq<char>,
    pub exported: Seq<char>,
    pub exported_is_identifier: bool,
}

/// The mathematical value of an [`Expression`].
pub enum ExpressionView<N> {
    ParenthesizedExpression(Box<ExpressionView<N>>),
    ObjectExpression(Seq<MemberView<N>>),
    Identifier(Seq<char>),
    Other(N),
}

/// The mathematical value of an [`ObjectPropertyKind`].
pub enum MemberView<N> {
    ObjectProperty {
        key: PropertyKeyView<N>,
        value: ExpressionView<N>,
        shorthand: bool,
        computed: bool,
    },
    SpreadProperty(ExpressionView<N>),
}

/// The mathematical value of a [`PropertyKey`].
pub enum PropertyKeyView<N> {
    StaticIdentifier(Seq<char>),
    StringLiteral(Seq<char>),
    Other { node: N, static_name: Option<Seq<char>> },
}

impl<N> Program<N> {
    /// The statements in order. Two programs with the same view are copies of each other.
    pub open spec fn view(self) -> ProgramView<N> {
        self.body@.map_values(|stmt: Statement<N>| stmt@)
    }
}

impl<N> Statement<N> {
    /// The statement without the identity of the strings in it.
    pub open spec fn view(self) -> StatementView<N> {
        match self {
            Statement::ExpressionStatement(expr) => StatementView::ExpressionStatement(expr@),
            Statement::ModuleExports(expr) => StatementView::ModuleExports(expr@),
            Statement::ExportDefault(expr) => StatementView::ExportDefault(expr@),
            Statement::VarDeclaration { local, init } => StatementView::VarDeclaration {
                local: local@,
                init: init@,
            },
            Statement::ExportNamed { specifiers } => StatementView::ExportNamed {
                specifiers: specifiers@.map_values(|specifier: ExportSpecifier| specifier@),
            },
            Statement::Other(node) => StatementView::Other(node),
        }
    }
}

impl ExportSpecifier {
    /// The specifier without the identity of the strings in it.
    pub open spec fn view(self) -> ExportSpecifierView {
        ExportSpecifierView {
            local: self.local@,
            exported: self.exported@,
            exported_is_identifier: self.exported_is_identifier,
        }
    }
}

impl<N> Expression<N> {
    /// The expression without the identity of the strings in it.
    pub open spec fn view(self) -> ExpressionView<N>
        decreases self,
    {
        match self {
            Expression::ParenthesizedExpression(inner) => ExpressionView::ParenthesizedExpression(
                Box::new((*inner).view()),
            ),
            Expression::ObjectExpression(members) => ExpressionView::ObjectExpression(
                Seq::new(
                    members@.len(),
                    |i: int|
                        if 0 <= i < members@.len() {
                            members@[i].view()
                        } else {
                            arbitrary()
                        },
                ),
            ),
            Expression::Identifier(name) => ExpressionView::Identifier(name@),
            Expression::Other(node) => ExpressionView::Other(node),
        }
    }
}

impl<N> ObjectPropertyKind<N> {
    /// The member without the identity of the strings in it.
    pub open spec fn view(self) -> MemberView<N>
        decreases self,
    {
        match self {
            ObjectPropertyKind::ObjectProperty(property) => MemberView::ObjectProperty {
                key: property.key.view(),
                value: property.value.view(),
                shorthand: property.shorthand,
                computed: property.computed,
            },
            ObjectPropertyKind::SpreadProperty(expr) => MemberView::SpreadProperty(expr.view()),
        }
    }
}

impl<N> PropertyKey<N> {
    /// The key without the identity of the strings in it.
    pub open spec fn view(self) -> PropertyKeyView<N> {
        match self {
            PropertyKey::StaticIdentifier(s) => PropertyKeyView::StaticIdentifier(s@),
            PropertyKey::StringLiteral(s) => PropertyKeyView::StringLiteral(s@),
            PropertyKey::Other { node, static_name } => PropertyKeyView::Other {
                node,
                static_name: match static_name {
                    Some(s) => Some(s@),
                    None => None,
                },
            },
        }
    }

    /// The name of the key, if it is known without evaluating anything.
    pub open spec fn name(self) -> Option<Seq<char>> {
        match self {
            PropertyKey::StaticIdentifier(s) => Some(s@),
            PropertyKey::StringLiteral(s) => Some(s@),
            PropertyKey::Other { node, static_name } => match static_name {
                Some(s) => Some(s@),
                None => None,
            },
        }
    }

    /// The name of the key, if it is known without evaluating anything.
    pub fn static_name(&self) -> (r: Option<&str>)
        ensures
            r is Some <==> self.name() is Some,
            r is Some ==> r->0@ == self.name()->0,
    {
        match self {
            PropertyKey::StaticIdentifier(s) => Some(s.as_str()),
            PropertyKey::StringLiteral(s) => Some(s.as_str()),
            PropertyKey::Other { node: _, static_name } => match static_name {
                Some(s) => Some(s.as_str()),
                None => None,
            },
        }
    }
}

impl<N> ObjectPropertyKind<N> {
    /// A `<key>: <value>` member whose key has a static name.
    pub open spec fn is_named(self) -> bool {
        self is ObjectProperty && self->ObjectProperty_0.key.name() is Some
    }

    /// The static name of the key of a [`is_named`](Self::is_named) member.
    pub open spec fn key_name(self) -> Seq<char> {
        self->ObjectProperty_0.key.name()->0
    }
}

impl<N> Expression<N> {
    /// The expression inside any number of wrapping parentheses.
    pub open spec fn stripped(self) -> Expression<N>
        decreases self,
    {
        match self {
            Expression::ParenthesizedExpression(inner) => (*inner).stripped(),
            _ => self,
        }
    }

    /// The expression inside any wrapping `(...)` parentheses.
    pub fn without_parentheses(&self) -> (r: &Expression<N>)
        ensures
            *r == self.stripped(),
    {
        let mut current: &Expression<N> = self;
        loop
            invariant
                current.stripped() == self.stripped(),
            decreases *current,
        {
            match current {
                Expression::ParenthesizedExpression(inner) => {
                    current = inner;
                },
                _ => {
                    return current;
                },
            }
        }
    }
}

/// Returns the owned expression with any wrapping `(...)` parentheses removed.
pub fn into_without_parentheses<N>(expr: Expression<N>) -> (r: Expression<N>)
    ensures
        r == expr.stripped(),
{
    let mut current = expr;
    loop
        invariant
            current.stripped() == expr.stripped(),
        decreases current,
    {
        match current {
            Expression::ParenthesizedExpression(inner) => {
                current = *inner;
            },
            other => {
                return other;
            },
        }
    }
}

} // verus!
