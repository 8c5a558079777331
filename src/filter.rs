//! Filter expressions: the vocabulary of fields and operators, the parser
//! of conditions and of `and` / `or` expressions, and the evaluator.
use crate::number::{number_literal, parse_u32, u32_literal, within_epsilon, Number, NumberModel};
use crate::process::ProcessInfo;
use crate::text::{
    contains_seq, contains_str, folds_to_str, find_from, find_keyword, find_keyword_from,
    find_str, folds_to, lemma_find_keyword_bounds, lemma_trim_len, lower_of, lowercase, same_text,
    trim, trim_str,
};
use vstd::prelude::*;
use vstd::string::*;

verus! {

/// Errors of filter parsing.
#[derive(Debug)]
pub enum FilterError {
    /// The text is not a filter expression; the detail says why.
    InvalidExpression(String),
    /// The field name is none of cpu, mem, memory, pid, name, user.
    UnknownField(String),
    /// The operator is none of >, >=, <, <=, ==, !=.
    UnknownOperator(String),
    /// The value does not parse as the kind that the field holds.
    InvalidValue { field: String, value: String, reason: String },
    /// An ordering operator was applied to a field that holds text.
    TypeMismatch { op: String, field: String },
}

/// What a `FilterError` holds, as character sequences.
pub enum ErrorModel {
    InvalidExpression(Seq<char>),
    UnknownField(Seq<char>),
    UnknownOperator(Seq<char>),
    InvalidValue { field: Seq<char>, value: Seq<char>, reason: Seq<char> },
    TypeMismatch { op: Seq<char>, field: Seq<char> },
}

impl View for FilterError {
    type V = ErrorModel;

    open spec fn view(&self) -> ErrorModel {
        match self {
            FilterError::InvalidExpression(d) => ErrorModel::InvalidExpression(d@),
            FilterError::UnknownField(f) => ErrorModel::UnknownField(f@),
            FilterError::UnknownOperator(o) => ErrorModel::UnknownOperator(o@),
            FilterError::InvalidValue { field, value, reason } => ErrorModel::InvalidValue {
                field: field@,
                value: value@,
                reason: reason@,
            },
            FilterError::TypeMismatch { op, field } => ErrorModel::TypeMismatch {
                op: op@,
                field: field@,
            },
        }
    }
}

pub open spec fn msg_empty() -> Seq<char> {
    "Empty filter expression"@
}

pub open spec fn msg_no_operator() -> Seq<char> {
    "No valid operator found. Use: >, >=, <, <=, ==, !="@
}

pub open spec fn msg_missing_field() -> Seq<char> {
    "Missing field before operator"@
}

pub open spec fn msg_missing_value() -> Seq<char> {
    "Missing value after operator"@
}

pub open spec fn msg_expected_number() -> Seq<char> {
    "Expected a number (e.g., 10 or 5.5)"@
}

pub open spec fn msg_expected_integer() -> Seq<char> {
    "Expected an integer (e.g., 1000)"@
}

/// Comparison operators for filter expressions.
#[derive(Debug, Clone, Copy, PartialEq, Eq, Structural)]
pub enum FilterOp {
    /// Greater than (>)
    Gt,
    /// Greater than or equal (>=)
    Gte,
    /// Less than (<)
    Lt,
    /// Less than or equal (<=)
    Lte,
    /// Equal (==)
    Eq,
    /// Not equal (!=)
    Ne,
}

/// The operator that the text `s` spells, if any.
pub open spec fn op_of(s: Seq<char>) -> Option<FilterOp> {
    if s == FilterOp::Gt.symbol() {
        Some(FilterOp::Gt)
    } else if s == FilterOp::Gte.symbol() {
        Some(FilterOp::Gte)
    } else if s == FilterOp::Lt.symbol() {
        Some(FilterOp::Lt)
    } else if s == FilterOp::Lte.symbol() {
        Some(FilterOp::Lte)
    } else if s == FilterOp::Eq.symbol() {
        Some(FilterOp::Eq)
    } else if s == FilterOp::Ne.symbol() {
        Some(FilterOp::Ne)
    } else {
        None
    }
}

impl FilterOp {
    /// The text of the operator.
    pub open spec fn symbol(self) -> Seq<char> {
        match self {
            FilterOp::Gt => seq!['>'],
            FilterOp::Gte => seq!['>', '='],
            FilterOp::Lt => seq!['<'],
            FilterOp::Lte => seq!['<', '='],
            FilterOp::Eq => seq!['=', '='],
            FilterOp::Ne => seq!['!', '='],
        }
    }

    /// The four ordering operators.
    pub open spec fn spec_is_comparison(self) -> bool {
        match self {
            FilterOp::Gt | FilterOp::Gte | FilterOp::Lt | FilterOp::Lte => true,
            _ => false,
        }
    }

    /// The operator that `s` spells exactly.
    pub fn from_str(s: &str) -> (r: Result<FilterOp, FilterError>)
        ensures
            match r {
                Ok(op) => op_of(s@) == Some(op),
                Err(e) => op_of(s@) is None && e@ == ErrorModel::UnknownOperator(s@),
            },
    {
        proof {
            reveal_strlit(">");
            reveal_strlit(">=");
            reveal_strlit("<");
            reveal_strlit("<=");
            reveal_strlit("==");
            reveal_strlit("!=");
            assert(">"@ =~= FilterOp::Gt.symbol());
            assert(">="@ =~= FilterOp::Gte.symbol());
            assert("<"@ =~= FilterOp::Lt.symbol());
            assert("<="@ =~= FilterOp::Lte.symbol());
            assert("=="@ =~= FilterOp::Eq.symbol());
            assert("!="@ =~= FilterOp::Ne.symbol());
        }
        if same_text(s, ">") {
            Ok(FilterOp::Gt)
        } else if same_text(s, ">=") {
            Ok(FilterOp::Gte)
        } else if same_text(s, "<") {
            Ok(FilterOp::Lt)
        } else if same_text(s, "<=") {
            Ok(FilterOp::Lte)
        } else if same_text(s, "==") {
            Ok(FilterOp::Eq)
        } else if same_text(s, "!=") {
            Ok(FilterOp::Ne)
        } else {
            Err(FilterError::UnknownOperator(String::from_str(s)))
        }
    }

    /// Whether the operator orders (>, >=, <, <=) rather than tests equality.
    pub fn is_comparison(&self) -> (r: bool)
        ensures
            r == self.spec_is_comparison(),
    {
        match self {
            FilterOp::Gt | FilterOp::Gte | FilterOp::Lt | FilterOp::Lte => true,
            _ => false,
        }
    }

    /// The text of the operator.
    pub fn as_str(&self) -> (r: &'static str)
        ensures
            r@ == self.symbol(),
    {
        proof {
            reveal_strlit(">");
            reveal_strlit(">=");
            reveal_strlit("<");
            reveal_strlit("<=");
            reveal_strlit("==");
            reveal_strlit("!=");
        }
        match self {
            FilterOp::Gt => {
                assert(">"@ =~= FilterOp::Gt.symbol());
                ">"
            },
            FilterOp::Gte => {
                assert(">="@ =~= FilterOp::Gte.symbol());
                ">="
            },
            FilterOp::Lt => {
                assert("<"@ =~= FilterOp::Lt.symbol());
                "<"
            },
            FilterOp::Lte => {
                assert("<="@ =~= FilterOp::Lte.symbol());
                "<="
            },
            FilterOp::Eq => {
                assert("=="@ =~= FilterOp::Eq.symbol());
                "=="
            },
            FilterOp::Ne => {
                assert("!="@ =~= FilterOp::Ne.symbol());
                "!="
            },
        }
    }
}

/// Fields that can be filtered on in process queries.
#[derive(Debug, Clone, Copy, PartialEq, Eq, Structural)]
pub enum FilterField {
    /// CPU usage percentage (numeric)
    Cpu,
    /// Memory usage percentage (numeric)
    Mem,
    /// Process ID (numeric)
    Pid,
    /// Process name (text, matched ignoring case)
    Name,
    /// User ID or name (text, matched exactly)
    User,
}

/// The field that `s` names, in any ASCII casing; `mem` and `memory` both
/// name `Mem`.
pub open spec fn field_of(s: Seq<char>) -> Option<FilterField> {
    if folds_to(s, seq!['c', 'p', 'u']) {
        Some(FilterField::Cpu)
    } else if folds_to(s, seq!['m', 'e', 'm']) || folds_to(s, seq!['m', 'e', 'm', 'o', 'r', 'y']) {
        Some(FilterField::Mem)
    } else if folds_to(s, seq!['p', 'i', 'd']) {
        Some(FilterField::Pid)
    } else if folds_to(s, seq!['n', 'a', 'm', 'e']) {
        Some(FilterField::Name)
    } else if folds_to(s, seq!['u', 's', 'e', 'r']) {
        Some(FilterField::User)
    } else {
        None
    }
}

impl FilterField {
    /// The canonical name of the field.
    pub open spec fn name_spec(self) -> Seq<char> {
        match self {
            FilterField::Cpu => seq!['c', 'p', 'u'],
            FilterField::Mem => seq!['m', 'e', 'm'],
            FilterField::Pid => seq!['p', 'i', 'd'],
            FilterField::Name => seq!['n', 'a', 'm', 'e'],
            FilterField::User => seq!['u', 's', 'e', 'r'],
        }
    }

    /// Cpu, Mem and Pid hold numbers; Name and User hold text.
    pub open spec fn spec_is_numeric(self) -> bool {
        match self {
            FilterField::Cpu | FilterField::Mem | FilterField::Pid => true,
            _ => false,
        }
    }

    /// The field that `s` names, ignoring ASCII case.
    pub fn from_str(s: &str) -> (r: Result<FilterField, FilterError>)
        ensures
            match r {
                Ok(f) => field_of(s@) == Some(f),
                Err(e) => field_of(s@) is None && e@ == ErrorModel::UnknownField(s@),
            },
    {
        proof {
            reveal_strlit("cpu");
            reveal_strlit("mem");
            reveal_strlit("memory");
            reveal_strlit("pid");
            reveal_strlit("name");
            reveal_strlit("user");
            assert("cpu"@ =~= seq!['c', 'p', 'u']);
            assert("mem"@ =~= seq!['m', 'e', 'm']);
            assert("memory"@ =~= seq!['m', 'e', 'm', 'o', 'r', 'y']);
            assert("pid"@ =~= seq!['p', 'i', 'd']);
            assert("name"@ =~= seq!['n', 'a', 'm', 'e']);
            assert("user"@ =~= seq!['u', 's', 'e', 'r']);
        }
        if folds_to_str(s, "cpu") {
            Ok(FilterField::Cpu)
        } else if folds_to_str(s, "mem") || folds_to_str(s, "memory") {
            Ok(FilterField::Mem)
        } else if folds_to_str(s, "pid") {
            Ok(FilterField::Pid)
        } else if folds_to_str(s, "name") {
            Ok(FilterField::Name)
        } else if folds_to_str(s, "user") {
            Ok(FilterField::User)
        } else {
            Err(FilterError::UnknownField(String::from_str(s)))
        }
    }

    /// Whether the field holds a number.
    pub fn is_numeric(&self) -> (r: bool)
        ensures
            r == self.spec_is_numeric(),
    {
        match self {
            FilterField::Cpu | FilterField::Mem | FilterField::Pid => true,
            _ => false,
        }
    }

    /// The canonical name of the field.
    pub fn name(&self) -> (r: &'static str)
        ensures
            r@ == self.name_spec(),
    {
        proof {
            reveal_strlit("cpu");
            reveal_strlit("mem");
            reveal_strlit("pid");
            reveal_strlit("name");
            reveal_strlit("user");
        }
        match self {
            FilterField::Cpu => {
                assert("cpu"@ =~= seq!['c', 'p', 'u']);
                "cpu"
            },
            FilterField::Mem => {
                assert("mem"@ =~= seq!['m', 'e', 'm']);
                "mem"
            },
            FilterField::Pid => {
                assert("pid"@ =~= seq!['p', 'i', 'd']);
                "pid"
            },
            FilterField::Name => {
                assert("name"@ =~= seq!['n', 'a', 'm', 'e']);
                "name"
            },
            FilterField::User => {
                assert("user"@ =~= seq!['u', 's', 'e', 'r']);
                "user"
            },
        }
    }
}

/// The value of a condition. The kind matches the field: `Float` for cpu
/// and mem, `Int` for pid, `String` for name and user.
#[derive(Debug, PartialEq)]
pub enum FilterValue {
    /// A percentage (cpu, mem): a decimal, an infinity or not a number
    Float(Number),
    /// An integer (pid)
    Int(u32),
    /// Text, with its lowercase form computed once for matching that ignores case
    String { original: String, lowercase: String },
}

/// What a `FilterValue` holds: numbers by their model, text as characters.
pub enum ValueModel {
    Float(NumberModel),
    Int(u32),
    Str { original: Seq<char>, lowercase: Seq<char> },
}

impl View for FilterValue {
    type V = ValueModel;

    open spec fn view(&self) -> ValueModel {
        match self {
            FilterValue::Float(d) => ValueModel::Float(d@),
            FilterValue::Int(n) => ValueModel::Int(*n),
            FilterValue::String { original, lowercase } => ValueModel::Str {
                original: original@,
                lowercase: lowercase@,
            },
        }
    }
}

/// What a `Filter` holds.
pub struct FilterModel {
    pub field: FilterField,
    pub op: FilterOp,
    pub value: ValueModel,
}

impl FilterModel {
    /// The condition is well typed: the value is of the field's kind, a text
    /// field takes only `==` and `!=`, and the lowercase form of a text value
    /// is its lowercase.
    pub open spec fn wf(self) -> bool {
        match self.value {
            ValueModel::Float(_) => self.field == FilterField::Cpu || self.field == FilterField::Mem,
            ValueModel::Int(_) => self.field == FilterField::Pid,
            ValueModel::Str { original, lowercase } => (self.field == FilterField::Name
                || self.field == FilterField::User) && !self.op.spec_is_comparison() && lowercase
                == lower_of(original),
        }
    }
}

/// Every condition of the tree is well typed.
pub open spec fn expr_wf(e: ExprModel) -> bool
    decreases e,
{
    match e {
        ExprModel::Simple(f) => f.wf(),
        ExprModel::And(l, r) => expr_wf(*l) && expr_wf(*r),
        ExprModel::Or(l, r) => expr_wf(*l) && expr_wf(*r),
    }
}

impl Clone for FilterValue {
    fn clone(&self) -> (r: FilterValue)
        ensures
            r@ == self@,
    {
        match self {
            FilterValue::Float(d) => FilterValue::Float(*d),
            FilterValue::Int(n) => FilterValue::Int(*n),
            FilterValue::String { original, lowercase } => FilterValue::String {
                original: original.clone(),
                lowercase: lowercase.clone(),
            },
        }
    }
}

/// A single filter condition (field operator value), such as `cpu > 10` or
/// `name == chrome`.
#[derive(Debug)]
pub struct Filter {
    field: FilterField,
    op: FilterOp,
    value: FilterValue,
}

impl View for Filter {
    type V = FilterModel;

    closed spec fn view(&self) -> FilterModel {
        FilterModel { field: self.field, op: self.op, value: self.value@ }
    }
}

impl Filter {
    #[verifier::type_invariant]
    spec fn inv(&self) -> bool {
        self@.wf()
    }
}

impl Clone for Filter {
    fn clone(&self) -> (r: Filter)
        ensures
            r@ == self@,
    {
        proof {
            use_type_invariant(self);
        }
        Filter { field: self.field, op: self.op, value: self.value.clone() }
    }
}

/// A filter expression: conditions joined by `and` and `or`.
#[derive(Debug)]
pub enum FilterExpr {
    /// Single filter condition
    Simple(Filter),
    /// Logical AND (both conditions must match)
    And(Box<FilterExpr>, Box<FilterExpr>),
    /// Logical OR (at least one condition must match)
    Or(Box<FilterExpr>, Box<FilterExpr>),
}

/// The tree of a `FilterExpr`.
pub enum ExprModel {
    Simple(FilterModel),
    And(Box<ExprModel>, Box<ExprModel>),
    Or(Box<ExprModel>, Box<ExprModel>),
}

impl FilterExpr {
    /// The tree that the expression holds.
    pub open spec fn model(&self) -> ExprModel
        decreases self,
    {
        match self {
            FilterExpr::Simple(f) => ExprModel::Simple(f@),
            FilterExpr::And(l, r) => ExprModel::And(Box::new(l.model()), Box::new(r.model())),
            FilterExpr::Or(l, r) => ExprModel::Or(Box::new(l.model()), Box::new(r.model())),
        }
    }
}

// ---------------------------------------------------------------------------
// Parsing
/// The operator of a condition and its position: the first of `>=`, `<=`,
/// `!=`, `==`, `>`, `<` (in that order of preference) that occurs in `e`, at
/// its first occurrence.
pub open spec fn find_operator(e: Seq<char>) -> Option<(FilterOp, int)> {
    match find_from(e, FilterOp::Gte.symbol(), 0) {
        Some(p) => Some((FilterOp::Gte, p)),
        None => match find_from(e, FilterOp::Lte.symbol(), 0) {
            Some(p) => Some((FilterOp::Lte, p)),
            None => match find_from(e, FilterOp::Ne.symbol(), 0) {
                Some(p) => Some((FilterOp::Ne, p)),
                None => match find_from(e, FilterOp::Eq.symbol(), 0) {
                    Some(p) => Some((FilterOp::Eq, p)),
                    None => match find_from(e, FilterOp::Gt.symbol(), 0) {
                        Some(p) => Some((FilterOp::Gt, p)),
                        None => match find_from(e, FilterOp::Lt.symbol(), 0) {
                            Some(p) => Some((FilterOp::Lt, p)),
                            None => None,
                        },
                    },
                },
            },
        },
    }
}

/// The value that the text `v` gives for `field`.
pub open spec fn value_of(field: FilterField, v: Seq<char>) -> Result<ValueModel, ErrorModel> {
    match field {
        FilterField::Cpu | FilterField::Mem => match number_literal(v) {
            Some(u) => Ok(ValueModel::Float(u)),
            None => Err(
                ErrorModel::InvalidValue {
                    field: field.name_spec(),
                    value: v,
                    reason: msg_expected_number(),
                },
            ),
        },
        FilterField::Pid => match u32_literal(v) {
            Some(n) => Ok(ValueModel::Int(n)),
            None => Err(
                ErrorModel::InvalidValue {
                    field: field.name_spec(),
                    value: v,
                    reason: msg_expected_integer(),
                },
            ),
        },
        _ => Ok(ValueModel::Str { original: v, lowercase: lower_of(v) }),
    }
}

/// The condition on `field` with `op` and the value text `v`: an ordering
/// operator on a text field is refused before the value is read.
pub open spec fn build_condition(field: FilterField, op: FilterOp, v: Seq<char>) -> Result<
    FilterModel,
    ErrorModel,
> {
    if op.spec_is_comparison() && !field.spec_is_numeric() {
        Err(ErrorModel::TypeMismatch { op: op.symbol(), field: field.name_spec() })
    } else {
        match value_of(field, v) {
            Ok(value) => Ok(FilterModel { field, op, value }),
            Err(e) => Err(e),
        }
    }
}

/// The condition that the text `s` spells: `<field> <op> <value>`.
pub open spec fn condition_spec(s: Seq<char>) -> Result<FilterModel, ErrorModel> {
    let e = trim(s);
    if e.len() == 0 {
        Err(ErrorModel::InvalidExpression(msg_empty()))
    } else {
        match find_operator(e) {
            None => Err(ErrorModel::InvalidExpression(msg_no_operator())),
            Some((op, p)) => {
                let f = trim(e.subrange(0, p));
                let v = trim(e.subrange(p + op.symbol().len(), e.len() as int));
                if f.len() == 0 {
                    Err(ErrorModel::InvalidExpression(msg_missing_field()))
                } else if v.len() == 0 {
                    Err(ErrorModel::InvalidExpression(msg_missing_value()))
                } else {
                    match field_of(f) {
                        None => Err(ErrorModel::UnknownField(f)),
                        Some(field) => build_condition(field, op, v),
                    }
                }
            },
        }
    }
}

pub open spec fn or_word() -> Seq<char> {
    seq!['o', 'r']
}

pub open spec fn and_word() -> Seq<char> {
    seq!['a', 'n', 'd']
}

/// The expression that the text `s` spells. The first whole-word `or`
/// splits it if there is one, else the first whole-word `and`; both halves
/// are parsed the same way, the left one first. Text with neither keyword
/// is a single condition.
pub open spec fn parse_spec(s: Seq<char>) -> Result<ExprModel, ErrorModel>
    decreases s.len(),
    via parse_spec_decreases
{
    let e = trim(s);
    match find_keyword_from(e, or_word(), 0) {
        Some(p) => match parse_spec(e.subrange(0, p)) {
            Err(x) => Err(x),
            Ok(l) => match parse_spec(e.subrange(p + 2, e.len() as int)) {
                Err(x) => Err(x),
                Ok(r) => Ok(ExprModel::Or(Box::new(l), Box::new(r))),
            },
        },
        None => match find_keyword_from(e, and_word(), 0) {
            Some(p) => match parse_spec(e.subrange(0, p)) {
                Err(x) => Err(x),
                Ok(l) => match parse_spec(e.subrange(p + 3, e.len() as int)) {
                    Err(x) => Err(x),
                    Ok(r) => Ok(ExprModel::And(Box::new(l), Box::new(r))),
                },
            },
            None => match condition_spec(e) {
                Ok(f) => Ok(ExprModel::Simple(f)),
                Err(x) => Err(x),
            },
        },
    }
}

#[via_fn]
proof fn parse_spec_decreases(s: Seq<char>) {
    let e = trim(s);
    lemma_trim_len(s);
    lemma_find_keyword_bounds(e, or_word(), 0);
    lemma_find_keyword_bounds(e, and_word(), 0);
}

/// The model of a parse result.
pub open spec fn expr_result(r: Result<FilterExpr, FilterError>) -> Result<ExprModel, ErrorModel> {
    match r {
        Ok(e) => Ok(e.model()),
        Err(x) => Err(x@),
    }
}

/// The model of a condition parse result.
pub open spec fn filter_result(r: Result<Filter, FilterError>) -> Result<FilterModel, ErrorModel> {
    match r {
        Ok(f) => Ok(f@),
        Err(x) => Err(x@),
    }
}

/// Finds the operator of a condition (see `find_operator`).
fn scan_operator(e: &str) -> (r: Option<(FilterOp, usize)>)
    ensures
        match r {
            Some((op, p)) => find_operator(e@) == Some((op, p as int)),
            None => find_operator(e@) is None,
        },
{
    proof {
        reveal_strlit(">=");
        reveal_strlit("<=");
        reveal_strlit("!=");
        reveal_strlit("==");
        reveal_strlit(">");
        reveal_strlit("<");
        assert(">"@ =~= FilterOp::Gt.symbol());
        assert(">="@ =~= FilterOp::Gte.symbol());
        assert("<"@ =~= FilterOp::Lt.symbol());
        assert("<="@ =~= FilterOp::Lte.symbol());
        assert("=="@ =~= FilterOp::Eq.symbol());
        assert("!="@ =~= FilterOp::Ne.symbol());
    }
    if let Some(p) = find_str(e, ">=") {
        return Some((FilterOp::Gte, p));
    }
    if let Some(p) = find_str(e, "<=") {
        return Some((FilterOp::Lte, p));
    }
    if let Some(p) = find_str(e, "!=") {
        return Some((FilterOp::Ne, p));
    }
    if let Some(p) = find_str(e, "==") {
        return Some((FilterOp::Eq, p));
    }
    if let Some(p) = find_str(e, ">") {
        return Some((FilterOp::Gt, p));
    }
    if let Some(p) = find_str(e, "<") {
        return Some((FilterOp::Lt, p));
    }
    None
}

impl Filter {
    /// Parses one condition `<field> <op> <value>`: the operator is the first
    /// of `>=`, `<=`, `!=`, `==`, `>`, `<` that occurs in the text; the
    /// field and value are the trimmed text around it.
    pub fn parse_simple(expression: &str) -> (r: Result<Filter, FilterError>)
        ensures
            filter_result(r) == condition_spec(expression@),
    {
        let expr = trim_str(expression);
        let n = expr.unicode_len();
        if n == 0 {
            return Err(FilterError::InvalidExpression(String::from_str("Empty filter expression")));
        }
        let (op, pos) = match scan_operator(expr) {
            Some(found) => found,
            None => {
                return Err(
                    FilterError::InvalidExpression(
                        String::from_str("No valid operator found. Use: >, >=, <, <=, ==, !="),
                    ),
                );
            },
        };
        let op_str = op.as_str();
        let op_len = op_str.unicode_len();
        proof {
            crate::text::lemma_find_from_occurs(expr@, op.symbol(), 0);
        }
        let field_str = trim_str(expr.substring_char(0, pos));
        let value_str = trim_str(expr.substring_char(pos + op_len, n));
        if field_str.unicode_len() == 0 {
            return Err(
                FilterError::InvalidExpression(String::from_str("Missing field before operator")),
            );
        }
        if value_str.unicode_len() == 0 {
            return Err(
                FilterError::InvalidExpression(String::from_str("Missing value after operator")),
            );
        }
        let field = match FilterField::from_str(field_str) {
            Ok(f) => f,
            Err(e) => {
                return Err(e);
            },
        };
        if op.is_comparison() && !field.is_numeric() {
            return Err(
                FilterError::TypeMismatch {
                    op: String::from_str(op_str),
                    field: String::from_str(field.name()),
                },
            );
        }
        let value = match field {
            FilterField::Cpu | FilterField::Mem => match Number::parse_literal(value_str) {
                Some(d) => FilterValue::Float(d),
                None => {
                    return Err(
                        FilterError::InvalidValue {
                            field: String::from_str(field.name()),
                            value: String::from_str(value_str),
                            reason: String::from_str("Expected a number (e.g., 10 or 5.5)"),
                        },
                    );
                },
            },
            FilterField::Pid => match parse_u32(value_str) {
                Some(v) => FilterValue::Int(v),
                None => {
                    return Err(
                        FilterError::InvalidValue {
                            field: String::from_str(field.name()),
                            value: String::from_str(value_str),
                            reason: String::from_str("Expected an integer (e.g., 1000)"),
                        },
                    );
                },
            },
            FilterField::Name | FilterField::User => {
                let original = String::from_str(value_str);
                let lower = lowercase(value_str);
                FilterValue::String { original, lowercase: lower }
            },
        };
        Ok(Filter { field, op, value })
    }

    /// The field that the condition reads.
    pub fn field(&self) -> (r: FilterField)
        ensures
            r == self@.field,
    {
        self.field
    }

    /// The operator of the condition.
    pub fn op(&self) -> (r: FilterOp)
        ensures
            r == self@.op,
    {
        self.op
    }

    /// The value that the condition compares with.
    pub fn value(&self) -> (r: &FilterValue)
        ensures
            r@ == self@.value,
    {
        &self.value
    }
}

impl FilterExpr {
    /// Parses a filter expression. The first whole-word `or` (any casing)
    /// splits the text, else the first whole-word `and`; each half is parsed
    /// in turn, the left one first, and the first error stops the parse.
    /// Text with neither keyword is one condition (see `Filter::parse_simple`).
    pub fn parse(expression: &str) -> (r: Result<FilterExpr, FilterError>)
        ensures
            expr_result(r) == parse_spec(expression@),
        decreases expression@.len(),
    {
        let expr = trim_str(expression);
        let n = expr.unicode_len();
        proof {
            lemma_trim_len(expression@);
            reveal_strlit("or");
            reveal_strlit("and");
            assert("or"@ =~= or_word());
            assert("and"@ =~= and_word());
            lemma_find_keyword_bounds(expr@, or_word(), 0);
            lemma_find_keyword_bounds(expr@, and_word(), 0);
        }
        if let Some(pos) = find_keyword(expr, "or") {
            let left = match Self::parse(expr.substring_char(0, pos)) {
                Ok(l) => l,
                Err(e) => {
                    return Err(e);
                },
            };
            let right = match Self::parse(expr.substring_char(pos + 2, n)) {
                Ok(r) => r,
                Err(e) => {
                    return Err(e);
                },
            };
            return Ok(FilterExpr::Or(Box::new(left), Box::new(right)));
        }
        if let Some(pos) = find_keyword(expr, "and") {
            let left = match Self::parse(expr.substring_char(0, pos)) {
                Ok(l) => l,
                Err(e) => {
                    return Err(e);
                },
            };
            let right = match Self::parse(expr.substring_char(pos + 3, n)) {
                Ok(r) => r,
                Err(e) => {
                    return Err(e);
                },
            };
            return Ok(FilterExpr::And(Box::new(left), Box::new(right)));
        }
        match Filter::parse_simple(expr) {
            Ok(f) => Ok(FilterExpr::Simple(f)),
            Err(e) => Err(e),
        }
    }
}

// ---------------------------------------------------------------------------
// Evaluation
/// `a < b` as `f32` orders numbers: NaN is unordered, and the infinities
/// lie beyond every decimal.
pub open spec fn number_lt(a: NumberModel, b: NumberModel) -> bool {
    match (a, b) {
        (NumberModel::Finite(x), NumberModel::Finite(y)) => x < y,
        (NumberModel::NegInf, NumberModel::Finite(_)) => true,
        (NumberModel::NegInf, NumberModel::PosInf) => true,
        (NumberModel::Finite(_), NumberModel::PosInf) => true,
        _ => false,
    }
}

/// `a == b` as `f32` compares numbers exactly: NaN equals nothing.
pub open spec fn number_same(a: NumberModel, b: NumberModel) -> bool {
    match (a, b) {
        (NumberModel::Finite(x), NumberModel::Finite(y)) => x == y,
        (NumberModel::PosInf, NumberModel::PosInf) => true,
        (NumberModel::NegInf, NumberModel::NegInf) => true,
        _ => false,
    }
}

/// `a op b` on numbers, as `f32` gives it. `==` holds when `|a - b|` is
/// below 2^-23, so only between decimals that close; `!=` holds when
/// `|a - b|` is 2^-23 or more, so never with NaN nor between equal
/// infinities (whose difference is NaN).
pub open spec fn compare_number(a: NumberModel, b: NumberModel, op: FilterOp) -> bool {
    match op {
        FilterOp::Gt => number_lt(b, a),
        FilterOp::Gte => number_lt(b, a) || number_same(a, b),
        FilterOp::Lt => number_lt(a, b),
        FilterOp::Lte => number_lt(a, b) || number_same(a, b),
        FilterOp::Eq => match (a, b) {
            (NumberModel::Finite(x), NumberModel::Finite(y)) => within_epsilon(x, y),
            _ => false,
        },
        FilterOp::Ne => match (a, b) {
            (NumberModel::Finite(x), NumberModel::Finite(y)) => !within_epsilon(x, y),
            (NumberModel::NaN, _) => false,
            (_, NumberModel::NaN) => false,
            _ => !number_same(a, b),
        },
    }
}

/// `a op b` on unsigned integers.
pub open spec fn compare_u32(a: u32, b: u32, op: FilterOp) -> bool {
    match op {
        FilterOp::Gt => a > b,
        FilterOp::Gte => a >= b,
        FilterOp::Lt => a < b,
        FilterOp::Lte => a <= b,
        FilterOp::Eq => a == b,
        FilterOp::Ne => a != b,
    }
}

/// Whether the record `p` meets the condition `f`. `name ==` holds when the
/// lowercased name contains the lowercased value, `name !=` when it does
/// not; `user ==` and `user !=` compare exactly. A value of a kind that does
/// not suit the field, or an ordering operator on text, never holds.
pub open spec fn filter_holds(f: FilterModel, p: ProcessInfo) -> bool {
    match f.value {
        ValueModel::Float(v) => match f.field {
            FilterField::Cpu => compare_number(p.cpu_percent@, v, f.op),
            FilterField::Mem => compare_number(p.memory_percent@, v, f.op),
            _ => false,
        },
        ValueModel::Int(v) => f.field == FilterField::Pid && compare_u32(p.pid, v, f.op),
        ValueModel::Str { original, lowercase } => match f.field {
            FilterField::Name => (f.op == FilterOp::Eq && contains_seq(lower_of(p.name@), lowercase))
                || (f.op == FilterOp::Ne && !contains_seq(lower_of(p.name@), lowercase)),
            FilterField::User => (f.op == FilterOp::Eq && p.user@ == original) || (f.op
                == FilterOp::Ne && p.user@ != original),
            _ => false,
        },
    }
}

/// Whether the record `p` meets the expression `e`.
pub open spec fn holds(e: ExprModel, p: ProcessInfo) -> bool
    decreases e,
{
    match e {
        ExprModel::Simple(f) => filter_holds(f, p),
        ExprModel::And(l, r) => holds(*l, p) && holds(*r, p),
        ExprModel::Or(l, r) => holds(*l, p) || holds(*r, p),
    }
}

impl Filter {
    /// Whether `a < b` as `f32` orders numbers.
    fn less(a: Number, b: Number) -> (r: bool)
        ensures
            r == number_lt(a@, b@),
    {
        match (a, b) {
            (Number::Finite(x), Number::Finite(y)) => x.units() < y.units(),
            (Number::NegInf, Number::Finite(_)) => true,
            (Number::NegInf, Number::PosInf) => true,
            (Number::Finite(_), Number::PosInf) => true,
            _ => false,
        }
    }

    /// Whether `a == b` exactly, as `f32` compares numbers.
    fn same(a: Number, b: Number) -> (r: bool)
        ensures
            r == number_same(a@, b@),
    {
        match (a, b) {
            (Number::Finite(x), Number::Finite(y)) => x.units() == y.units(),
            (Number::PosInf, Number::PosInf) => true,
            (Number::NegInf, Number::NegInf) => true,
            _ => false,
        }
    }

    /// `a op b` on numbers, with `==` and `!=` to within 2^-23 (see `compare_number`).
    pub fn compare_float(a: Number, b: Number, op: FilterOp) -> (r: bool)
        ensures
            r == compare_number(a@, b@, op),
    {
        match op {
            FilterOp::Gt => Filter::less(b, a),
            FilterOp::Gte => Filter::less(b, a) || Filter::same(a, b),
            FilterOp::Lt => Filter::less(a, b),
            FilterOp::Lte => Filter::less(a, b) || Filter::same(a, b),
            FilterOp::Eq => match (a, b) {
                (Number::Finite(x), Number::Finite(y)) => x.approx_eq(&y),
                _ => false,
            },
            FilterOp::Ne => match (a, b) {
                (Number::Finite(x), Number::Finite(y)) => !x.approx_eq(&y),
                (Number::NaN, _) => false,
                (_, Number::NaN) => false,
                _ => !Filter::same(a, b),
            },
        }
    }

    /// `a op b` on unsigned integers.
    pub fn compare_int(a: u32, b: u32, op: FilterOp) -> (r: bool)
        ensures
            r == compare_u32(a, b, op),
    {
        match op {
            FilterOp::Gt => a > b,
            FilterOp::Gte => a >= b,
            FilterOp::Lt => a < b,
            FilterOp::Lte => a <= b,
            FilterOp::Eq => a == b,
            FilterOp::Ne => a != b,
        }
    }

    /// Tests whether a process meets this condition.
    pub fn matches(&self, process: &ProcessInfo) -> (r: bool)
        ensures
            r == filter_holds(self@, *process),
    {
        match (&self.field, &self.value, &self.op) {
            (FilterField::Cpu, FilterValue::Float(val), op) => Filter::compare_float(
                process.cpu_percent,
                *val,
                *op,
            ),
            (FilterField::Mem, FilterValue::Float(val), op) => Filter::compare_float(
                process.memory_percent,
                *val,
                *op,
            ),
            (FilterField::Pid, FilterValue::Int(val), op) => Filter::compare_int(
                process.pid,
                *val,
                *op,
            ),
            (FilterField::Name, FilterValue::String { lowercase: lower, .. }, FilterOp::Eq) => {
                contains_str(&lowercase(&process.name), lower)
            },
            (FilterField::Name, FilterValue::String { lowercase: lower, .. }, FilterOp::Ne) => {
                !contains_str(&lowercase(&process.name), lower)
            },
            (FilterField::User, FilterValue::String { original, .. }, FilterOp::Eq) => {
                same_text(&process.user, original)
            },
            (FilterField::User, FilterValue::String { original, .. }, FilterOp::Ne) => {
                !same_text(&process.user, original)
            },
            _ => false,
        }
    }
}

impl FilterExpr {
    /// Tests whether a process meets this expression. The left operand of
    /// `and` / `or` is tested first, and the right one only when the left one
    /// does not already decide the result.
    pub fn matches(&self, process: &ProcessInfo) -> (r: bool)
        ensures
            r == holds(self.model(), *process),
        decreases self,
    {
        match self {
            FilterExpr::Simple(f) => f.matches(process),
            FilterExpr::And(l, r) => l.matches(process) && r.matches(process),
            FilterExpr::Or(l, r) => l.matches(process) || r.matches(process),
        }
    }
}

} // verus!
