use vstd::prelude::*;

verus! {

// ---------------------------------------------------------------------------
// The compiled statement the engine executes.  It mirrors the shape of one
// parsed SQL SELECT: a projection list, an optional WHERE expression, ORDER BY
// keys, and LIMIT/OFFSET expressions.  Shapes the engine does not support are
// still representable (the `Other` variants), so that the engine itself can
// reject them with a typed error; the builder that lowers a parsed statement
// into this form maps every unsupported node to `Other`.
// ---------------------------------------------------------------------------
/// A numeric literal: its decimal text, the "long" marker from the source,
/// and the text rounded to binary32 and binary64 as IEEE 754 bit patterns.
/// The engine holds floating-point numbers only as bit patterns, so the
/// statement builder supplies the rounded forms alongside the text.
#[derive(Debug, PartialEq)]
pub struct NumberValue {
    pub text: String,
    pub long: bool,
    pub float32_bits: u32,
    pub float64_bits: u64,
}

/// A comparison literal: a quoted string, numeric text, or a boolean.
#[derive(Debug, PartialEq)]
pub enum Literal {
    SingleQuotedString(String),
    Number(NumberValue),
    Boolean(bool),
    Other,
}

#[derive(Debug, Clone, Copy, PartialEq, Eq, Structural)]
pub enum BinaryOperator {
    Eq,
    NotEq,
    Lt,
    LtEq,
    Gt,
    GtEq,
    Other,
}

#[derive(Debug, PartialEq)]
pub enum Expr {
    Identifier(String),
    Value(Literal),
    BinaryOp { left: Box<Expr>, op: BinaryOperator, right: Box<Expr> },
    Other,
}

#[derive(Debug, PartialEq)]
pub enum SelectItem {
    UnnamedExpr(Expr),
    ExprWithAlias { expr: Expr, alias: String },
    Wildcard,
    Other,
}

#[derive(Debug, PartialEq)]
pub struct OrderByExpr {
    pub expr: Expr,
    pub asc: Option<bool>,
}

#[derive(Debug, PartialEq)]
pub struct Select {
    pub projection: Vec<SelectItem>,
    pub selection: Option<Expr>,
}

#[derive(Debug, PartialEq)]
pub enum SetExpr {
    Select(Select),
    Other,
}

#[derive(Debug, PartialEq)]
pub struct Query {
    pub body: SetExpr,
    pub order_by: Vec<OrderByExpr>,
    pub limit: Option<Expr>,
    pub offset: Option<Expr>,
}

#[derive(Debug, PartialEq)]
pub enum Statement {
    Query(Query),
    Other,
}

// ---------------------------------------------------------------------------
// Mathematical models.  The engine reads a WHERE expression only one level
// deep — a comparison between two operands — so the model of an operand
// flattens anything it never reads to `Other`.
// ---------------------------------------------------------------------------
pub struct NumberModel {
    pub text: Seq<char>,
    pub long: bool,
    pub float32_bits: u32,
    pub float64_bits: u64,
}

pub enum LiteralModel {
    SingleQuotedString(Seq<char>),
    Number(NumberModel),
    Boolean(bool),
    Other,
}

pub enum OperandModel {
    Identifier(Seq<char>),
    Value(LiteralModel),
    Other,
}

pub enum ExprModel {
    Identifier(Seq<char>),
    Value(LiteralModel),
    BinaryOp { left: OperandModel, op: BinaryOperator, right: OperandModel },
    Other,
}

pub enum SelectItemModel {
    UnnamedExpr(ExprModel),
    ExprWithAlias { expr: ExprModel, alias: Seq<char> },
    Wildcard,
    Other,
}

pub struct OrderByModel {
    pub expr: ExprModel,
    pub asc: Option<bool>,
}

pub struct SelectModel {
    pub projection: Seq<SelectItemModel>,
    pub selection: Option<ExprModel>,
}

pub enum SetExprModel {
    Select(SelectModel),
    Other,
}

pub struct QueryModel {
    pub body: SetExprModel,
    pub order_by: Seq<OrderByModel>,
    pub limit: Option<ExprModel>,
    pub offset: Option<ExprModel>,
}

pub enum StatementModel {
    Query(QueryModel),
    Other,
}


/// The models of a projection list.
pub open spec fn items_model(s: Seq<SelectItem>) -> Seq<SelectItemModel> {
    s.map_values(|it: SelectItem| it@)
}

/// The models of the ORDER BY keys.
pub open spec fn keys_model(s: Seq<OrderByExpr>) -> Seq<OrderByModel> {
    s.map_values(|k: OrderByExpr| k@)
}

impl View for NumberValue {
    type V = NumberModel;

    open spec fn view(&self) -> NumberModel {
        NumberModel {
            text: self.text@,
            long: self.long,
            float32_bits: self.float32_bits,
            float64_bits: self.float64_bits,
        }
    }
}

impl View for Literal {
    type V = LiteralModel;

    open spec fn view(&self) -> LiteralModel {
        match self {
            Literal::SingleQuotedString(s) => LiteralModel::SingleQuotedString(s@),
            Literal::Number(n) => LiteralModel::Number(n@),
            Literal::Boolean(b) => LiteralModel::Boolean(*b),
            Literal::Other => LiteralModel::Other,
        }
    }
}

/// An operand of a comparison, as the engine sees it: one level deep.
pub open spec fn operand_model(e: &Expr) -> OperandModel {
    match e {
        Expr::Identifier(name) => OperandModel::Identifier(name@),
        Expr::Value(lit) => OperandModel::Value(lit@),
        _ => OperandModel::Other,
    }
}

impl View for Expr {
    type V = ExprModel;

    open spec fn view(&self) -> ExprModel {
        match self {
            Expr::Identifier(name) => ExprModel::Identifier(name@),
            Expr::Value(lit) => ExprModel::Value(lit@),
            Expr::BinaryOp { left, op, right } => ExprModel::BinaryOp {
                left: operand_model(left),
                op: *op,
                right: operand_model(right),
            },
            Expr::Other => ExprModel::Other,
        }
    }
}

impl View for SelectItem {
    type V = SelectItemModel;

    open spec fn view(&self) -> SelectItemModel {
        match self {
            SelectItem::UnnamedExpr(e) => SelectItemModel::UnnamedExpr(e@),
            SelectItem::ExprWithAlias { expr, alias } => SelectItemModel::ExprWithAlias {
                expr: expr@,
                alias: alias@,
            },
            SelectItem::Wildcard => SelectItemModel::Wildcard,
            SelectItem::Other => SelectItemModel::Other,
        }
    }
}

impl View for OrderByExpr {
    type V = OrderByModel;

    open spec fn view(&self) -> OrderByModel {
        OrderByModel { expr: self.expr@, asc: self.asc }
    }
}

impl View for Select {
    type V = SelectModel;

    open spec fn view(&self) -> SelectModel {
        SelectModel {
            projection: items_model(self.projection@),
            selection: match &self.selection {
                Option::Some(e) => Option::Some(e@),
                Option::None => Option::None,
            },
        }
    }
}

impl View for SetExpr {
    type V = SetExprModel;

    open spec fn view(&self) -> SetExprModel {
        match self {
            SetExpr::Select(s) => SetExprModel::Select(s@),
            SetExpr::Other => SetExprModel::Other,
        }
    }
}

impl View for Query {
    type V = QueryModel;

    open spec fn view(&self) -> QueryModel {
        QueryModel {
            body: self.body@,
            order_by: keys_model(self.order_by@),
            limit: match &self.limit {
                Option::Some(e) => Option::Some(e@),
                Option::None => Option::None,
            },
            offset: match &self.offset {
                Option::Some(e) => Option::Some(e@),
                Option::None => Option::None,
            },
        }
    }
}

impl View for Statement {
    type V = StatementModel;

    open spec fn view(&self) -> StatementModel {
        match self {
            Statement::Query(q) => StatementModel::Query(q@),
            Statement::Other => StatementModel::Other,
        }
    }
}

// ---------------------------------------------------------------------------
// Explicit copies.  Their contracts say that the copy models the same
// statement; an operand the engine never reads may be copied as `Other`,
// which models the same.
// ---------------------------------------------------------------------------
impl Literal {
    pub fn duplicate(&self) -> (r: Literal)
        ensures
            r@ == self@,
    {
        match self {
            Literal::SingleQuotedString(s) => Literal::SingleQuotedString(s.clone()),
            Literal::Number(n) => Literal::Number(
                NumberValue {
                    text: n.text.clone(),
                    long: n.long,
                    float32_bits: n.float32_bits,
                    float64_bits: n.float64_bits,
                },
            ),
            Literal::Boolean(b) => Literal::Boolean(*b),
            Literal::Other => Literal::Other,
        }
    }
}

impl Expr {
    fn duplicate_operand(e: &Expr) -> (r: Expr)
        ensures
            operand_model(&r) == operand_model(e),
    {
        match e {
            Expr::Identifier(name) => Expr::Identifier(name.clone()),
            Expr::Value(lit) => Expr::Value(lit.duplicate()),
            _ => Expr::Other,
        }
    }

    pub fn duplicate(&self) -> (r: Expr)
        ensures
            r@ == self@,
    {
        match self {
            Expr::Identifier(name) => Expr::Identifier(name.clone()),
            Expr::Value(lit) => Expr::Value(lit.duplicate()),
            Expr::BinaryOp { left, op, right } => Expr::BinaryOp {
                left: Box::new(Expr::duplicate_operand(left)),
                op: *op,
                right: Box::new(Expr::duplicate_operand(right)),
            },
            Expr::Other => Expr::Other,
        }
    }
}

impl SelectItem {
    pub fn duplicate(&self) -> (r: SelectItem)
        ensures
            r@ == self@,
    {
        match self {
            SelectItem::UnnamedExpr(e) => SelectItem::UnnamedExpr(e.duplicate()),
            SelectItem::ExprWithAlias { expr, alias } => SelectItem::ExprWithAlias {
                expr: expr.duplicate(),
                alias: alias.clone(),
            },
            SelectItem::Wildcard => SelectItem::Wildcard,
            SelectItem::Other => SelectItem::Other,
        }
    }
}

impl Select {
    pub fn duplicate(&self) -> (r: Select)
        ensures
            r@ == self@,
    {
        let mut projection: Vec<SelectItem> = Vec::new();
        let n = self.projection.len();
        for i in 0..n
            invariant
                n == self.projection.len(),
                projection.len() == i,
                forall|k: int|
                    0 <= k < i ==> items_model(projection@)[k] == items_model(self.projection@)[k],
        {
            let ghost before = projection@;
            let item = self.projection[i].duplicate();
            projection.push(item);
            proof {
                assert forall|k: int|
                    0 <= k < i + 1 implies items_model(projection@)[k] == items_model(
                    self.projection@,
                )[k] by {
                    if k < i {
                        assert(projection@[k] == before[k]);
                        assert(items_model(before)[k] == items_model(self.projection@)[k]);
                    } else {
                        assert(projection@[k] == item);
                    }
                }
            }
        }
        proof {
            assert(items_model(projection@) =~= items_model(self.projection@));
        }
        let selection = match &self.selection {
            Option::Some(e) => Option::Some(e.duplicate()),
            Option::None => Option::None,
        };
        Select { projection, selection }
    }
}

impl Query {
    pub fn duplicate(&self) -> (r: Query)
        ensures
            r@ == self@,
    {
        let body = match &self.body {
            SetExpr::Select(s) => SetExpr::Select(s.duplicate()),
            SetExpr::Other => SetExpr::Other,
        };
        let mut order_by: Vec<OrderByExpr> = Vec::new();
        let n = self.order_by.len();
        for i in 0..n
            invariant
                n == self.order_by.len(),
                order_by.len() == i,
                forall|k: int|
                    0 <= k < i ==> keys_model(order_by@)[k] == keys_model(self.order_by@)[k],
        {
            let ghost before = order_by@;
            let key = &self.order_by[i];
            let copied = OrderByExpr { expr: key.expr.duplicate(), asc: key.asc };
            order_by.push(copied);
            proof {
                assert forall|k: int|
                    0 <= k < i + 1 implies keys_model(order_by@)[k] == keys_model(
                    self.order_by@,
                )[k] by {
                    if k < i {
                        assert(order_by@[k] == before[k]);
                        assert(keys_model(before)[k] == keys_model(self.order_by@)[k]);
                    } else {
                        assert(order_by@[k] == copied);
                    }
                }
            }
        }
        proof {
            assert(keys_model(order_by@) =~= keys_model(self.order_by@));
        }
        let limit = match &self.limit {
            Option::Some(e) => Option::Some(e.duplicate()),
            Option::None => Option::None,
        };
        let offset = match &self.offset {
            Option::Some(e) => Option::Some(e.duplicate()),
            Option::None => Option::None,
        };
        Query { body, order_by, limit, offset }
    }
}

impl Statement {
    pub fn duplicate(&self) -> (r: Statement)
        ensures
            r@ == self@,
    {
        match self {
            Statement::Query(q) => Statement::Query(q.duplicate()),
            Statement::Other => Statement::Other,
        }
    }
}

/// The comparison operators the engine's filter supports.
pub open spec fn supported_operator(op: BinaryOperator) -> bool {
    match op {
        BinaryOperator::Other => false,
        _ => true,
    }
}

/// The operator that states `literal OP column` as `column OP' literal`:
/// the equality operators are symmetric, the order operators reverse.
pub open spec fn flip_operator(op: BinaryOperator) -> BinaryOperator {
    match op {
        BinaryOperator::Eq => BinaryOperator::Eq,
        BinaryOperator::NotEq => BinaryOperator::NotEq,
        BinaryOperator::Lt => BinaryOperator::Gt,
        BinaryOperator::Gt => BinaryOperator::Lt,
        BinaryOperator::LtEq => BinaryOperator::GtEq,
        BinaryOperator::GtEq => BinaryOperator::LtEq,
        BinaryOperator::Other => BinaryOperator::Other,
    }
}

pub fn flip_operator_exec(op: BinaryOperator) -> (r: BinaryOperator)
    ensures
        r == flip_operator(op),
{
    match op {
        BinaryOperator::Eq => BinaryOperator::Eq,
        BinaryOperator::NotEq => BinaryOperator::NotEq,
        BinaryOperator::Lt => BinaryOperator::Gt,
        BinaryOperator::Gt => BinaryOperator::Lt,
        BinaryOperator::LtEq => BinaryOperator::GtEq,
        BinaryOperator::GtEq => BinaryOperator::LtEq,
        BinaryOperator::Other => BinaryOperator::Other,
    }
}

} // verus!
