//! The operands of a line of pseudo-assembly, and the kinds of operand that
//! an opcode takes.

use vstd::prelude::*;
use crate::error::AsmError;
use crate::text::{chars_of, parse_byte, parse_u8};

verus! {

/// One operand.
#[derive(Debug, PartialEq, Eq)]
pub enum Value {
    /// An immediate value, written `&n`.
    RefNum(u8),
    /// A variable, written as its name.
    Variable(String),
    /// A plain number.
    Num(u8),
    /// A label, written `'name`.
    Label(String),
}

/// An operand, as the contracts see it.
pub enum ValueView {
    RefNum(u8),
    Variable(Seq<char>),
    Num(u8),
    Label(Seq<char>),
}

impl View for Value {
    type V = ValueView;

    open spec fn view(&self) -> ValueView {
        match self {
            Value::RefNum(n) => ValueView::RefNum(*n),
            Value::Variable(name) => ValueView::Variable(name@),
            Value::Num(n) => ValueView::Num(*n),
            Value::Label(name) => ValueView::Label(name@),
        }
    }
}

/// The views of a list of operands, in order.
pub open spec fn value_views(list: Seq<Value>) -> Seq<ValueView> {
    list.map_values(|v: Value| v@)
}

/// The size that a plain number stands for: zero stands for sixteen.
pub open spec fn size_of(n: u8) -> u8 {
    if n == 0 {
        16
    } else {
        n
    }
}

/// What a token stands for. A token that begins with `'` is a label. One
/// that begins with `&` is an immediate value, and must spell a byte behind
/// the `&`. Any other token that spells a byte is a plain number, and
/// whatever is left is a variable.
pub open spec fn parsed_value(token: Seq<char>) -> Result<ValueView, AsmError> {
    if token.len() > 0 && token[0] == '\'' {
        Ok(ValueView::Label(token.subrange(1, token.len() as int)))
    } else if token.len() > 0 && token[0] == '&' {
        match parse_u8(token.subrange(1, token.len() as int)) {
            Some(n) => Ok(ValueView::RefNum(n)),
            None => Err(AsmError::BadRefNumber),
        }
    } else {
        match parse_u8(token) {
            Some(n) => Ok(ValueView::Num(n)),
            None => Ok(ValueView::Variable(token)),
        }
    }
}

/// The view of a parsed operand, or the error.
pub open spec fn value_result_view(r: Result<Value, AsmError>) -> Result<ValueView, AsmError> {
    match r {
        Ok(v) => Ok(v@),
        Err(e) => Err(e),
    }
}

impl Value {
    /// The name of a variable.
    pub fn var(&self) -> (name: Option<&String>)
        ensures
            match name {
                Some(n) => self@ == ValueView::Variable(n@),
                None => !(self@ is Variable),
            },
    {
        match self {
            Value::Variable(name) => Some(name),
            _ => None,
        }
    }

    /// The name of a label.
    pub fn label(&self) -> (name: Option<&String>)
        ensures
            match name {
                Some(n) => self@ == ValueView::Label(n@),
                None => !(self@ is Label),
            },
    {
        match self {
            Value::Label(name) => Some(name),
            _ => None,
        }
    }

    /// The size that a plain number stands for.
    pub fn num(&self) -> (size: Option<u8>)
        ensures
            size == match self@ {
                ValueView::Num(n) => Some(size_of(n)),
                _ => None,
            },
    {
        match self {
            Value::Num(n) => if *n == 0 {
                Some(16)
            } else {
                Some(*n)
            },
            _ => None,
        }
    }

    /// Reads one token.
    pub fn from_str(s: &str) -> (r: Result<Value, AsmError>)
        ensures
            value_result_view(r) == parsed_value(s@),
    {
        let chars = chars_of(s);
        let n = chars.len();
        if n > 0 && chars[0] == '\'' {
            Ok(Value::Label(String::from_str(s.substring_char(1, n))))
        } else if n > 0 && chars[0] == '&' {
            match parse_byte(s.substring_char(1, n)) {
                Some(value) => Ok(Value::RefNum(value)),
                None => Err(AsmError::BadRefNumber),
            }
        } else {
            match parse_byte(s) {
                Some(value) => Ok(Value::Num(value)),
                None => Ok(Value::Variable(String::from_str(s))),
            }
        }
    }
}

/// A kind of operand that an opcode takes at one place.
#[derive(Debug, PartialEq, Eq)]
pub enum ValueType {
    /// Any of the listed kinds.
    Or(Vec<ValueType>),
    RefNum,
    Variable,
    Num,
    Label,
}

/// A kind of operand, as the contracts see it.
pub enum KindView {
    Or(Seq<KindView>),
    RefNum,
    Variable,
    Num,
    Label,
}

/// The view of one kind.
pub open spec fn kind_view(t: ValueType) -> KindView
    decreases t, 0nat,
{
    match t {
        ValueType::Or(options) => KindView::Or(kind_views(options, options.len() as nat)),
        ValueType::RefNum => KindView::RefNum,
        ValueType::Variable => KindView::Variable,
        ValueType::Num => KindView::Num,
        ValueType::Label => KindView::Label,
    }
}

/// The views of the first `n` kinds of `list`.
pub open spec fn kind_views(list: Vec<ValueType>, n: nat) -> Seq<KindView>
    decreases list, n,
{
    if n == 0 || n > list.len() {
        Seq::empty()
    } else {
        kind_views(list, (n - 1) as nat).push(kind_view(list[n - 1]))
    }
}

impl View for ValueType {
    type V = KindView;

    open spec fn view(&self) -> KindView {
        kind_view(*self)
    }
}

/// The view of a list of kinds holds the view of each, in order.
pub proof fn lemma_kind_views(list: Vec<ValueType>, n: nat)
    requires
        n <= list.len(),
    ensures
        kind_views(list, n).len() == n,
        forall|j: int| 0 <= j < n ==> (#[trigger] kind_views(list, n)[j]) == list[j]@,
    decreases n,
{
    if n > 0 {
        lemma_kind_views(list, (n - 1) as nat);
    }
}

/// Whether an operand is of the kind.
pub open spec fn accepts(kind: KindView, value: ValueView) -> bool
    decreases kind, 0nat,
{
    match kind {
        KindView::Or(options) => accepts_any(options, options.len(), value),
        KindView::RefNum => value is RefNum,
        KindView::Variable => value is Variable,
        KindView::Num => value is Num,
        KindView::Label => value is Label,
    }
}

/// Whether an operand is of one of the first `n` kinds.
pub open spec fn accepts_any(options: Seq<KindView>, n: nat, value: ValueView) -> bool
    decreases options, n,
{
    if n == 0 || n > options.len() {
        false
    } else {
        accepts_any(options, (n - 1) as nat, value) || accepts(options[n - 1], value)
    }
}

/// Whether each of the first `n` operands is of the kind at its place.
pub open spec fn accepts_all(kinds: Seq<KindView>, values: Seq<ValueView>, n: nat) -> bool
    decreases n,
{
    if n == 0 || n > kinds.len() || n > values.len() {
        true
    } else {
        accepts_all(kinds, values, (n - 1) as nat) && accepts(kinds[n - 1], values[n - 1])
    }
}

impl ValueType {
    /// Whether `value` is of this kind.
    pub fn check(&self, value: &Value) -> (ok: bool)
        ensures
            ok == accepts(self@, value@),
        decreases self,
    {
        match self {
            ValueType::Or(options) => {
                proof {
                    lemma_kind_views(*options, options.len() as nat);
                }
                let ghost views = kind_views(*options, options.len() as nat);
                let mut i: usize = 0;
                while i < options.len()
                    invariant
                        i <= options.len(),
                        self@ == KindView::Or(views),
                        views == kind_views(*options, options.len() as nat),
                        views.len() == options.len(),
                        forall|j: int| 0 <= j < options.len() ==> views[j] == options[j]@,
                        !accepts_any(views, i as nat, value@),
                        decreases_to!(self => options),
                    decreases options.len() - i,
                {
                    if options[i].check(value) {
                        proof {
                            lemma_accepts_any_grows(
                                views,
                                (i + 1) as nat,
                                options.len() as nat,
                                value@,
                            );
                        }
                        return true;
                    }
                    i = i + 1;
                }
                false
            },
            ValueType::RefNum => match value {
                Value::RefNum(_) => true,
                _ => false,
            },
            ValueType::Variable => match value {
                Value::Variable(_) => true,
                _ => false,
            },
            ValueType::Num => match value {
                Value::Num(_) => true,
                _ => false,
            },
            ValueType::Label => match value {
                Value::Label(_) => true,
                _ => false,
            },
        }
    }
}

/// A kind that one of the first options accepts stays accepted among more.
pub proof fn lemma_accepts_any_grows(options: Seq<KindView>, n: nat, m: nat, value: ValueView)
    requires
        n <= m <= options.len(),
        accepts_any(options, n, value),
    ensures
        accepts_any(options, m, value),
    decreases m,
{
    if n < m {
        lemma_accepts_any_grows(options, n, (m - 1) as nat, value);
    }
}

} // verus!
