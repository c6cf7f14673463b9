//! HazardFlow attributes: the magics that mark items of HazardFlow code.

use vstd::prelude::*;

use crate::compiler::ops::BinaryOp;
use crate::utils::string::{
    chars_of, chars_views, eq_str, lemma_split_nonempty, remove_escaped_newline_chars, remove_escaped_newlines, split_chars, split_on,
    string_from_chars, strip_whitespace, strip_ws, sub_chars, trim_chars, trim_spec,
};

verus! {

/// Hazardflow Attributes, defined in `hazardflow-macros`
#[derive(Debug, Clone, PartialEq, Eq)]
pub enum HazardFlowAttr {
    /// Synthesizable function
    Synthesize,

    /// Expression Magic.
    ExprMagic(ExprMagic),

    /// FFI.
    FFI {
        /// FFI Module Name.
        module_name: Box<String>,

        /// Module params
        params: Vec<String>,
    },

    /// Interface Magic.
    InterfaceMagic(InterfaceMagic),

    /// System Task.
    SystemTask(SystemTaskMagic),

    /// Module Magic.
    ModuleMagic(ModuleMagic),
}

/// Expression Magic.
#[derive(Debug, Clone, PartialEq, Eq)]
pub enum ExprMagic {
    /// Array Magic
    ArrayMagic(ArrayMagic),
    /// Int Magic
    IntMagic(IntMagic),
    /// Adt Magic
    AdtMagic(AdtMagic),
    /// X
    X,
}

/// Interface Magics
#[derive(Debug, Clone, PartialEq, Eq)]
pub enum InterfaceMagic {
    /// Fsm
    Fsm,

    /// Composite Interface
    CompositeInterface,
}

/// Array Magics
#[derive(Debug, Clone, PartialEq, Eq)]
pub enum ArrayMagic {
    /// Array
    Array,
    /// Set (an element)
    SetElement,
    /// Clip const
    ClipConst,
    /// Zip
    Zip,
    /// Map (each element)
    MapElements,
    /// Fold
    Fold,
    /// Resize
    Resize,
    /// Chunk
    Chunk,
    /// Append
    Append,
    /// Concat
    Concat,
    /// Range
    Range,
    /// From
    From,
    /// Index
    Index,
    /// BitOr
    BitOr,
    /// BitAnd
    BitAnd,
    /// Repeat
    Repeat,
    /// Eq
    Eq,
    /// Ne
    Ne,
    /// BitXor
    BitXor,
    /// Set Range
    SetRange,
}

/// Integer Magics
#[derive(Debug, Clone, PartialEq, Eq)]
pub enum IntMagic {
    /// Not
    Not,
    /// Shr
    Shr,
    /// Shl
    Shl,
    /// Add
    Add,
    /// Sub
    Sub,
    /// Lt
    Lt,
    /// Le
    Le,
    /// Gt
    Gt,
    /// Ge
    Ge,
    /// Convert
    Convert,
    /// Mult
    Mul,
}

/// Adt Magics
#[derive(Debug, Clone, PartialEq, Eq)]
pub enum AdtMagic {
    /// Eq
    EnumEq,
    /// Ne
    EnumNe,
}

/// System Tasks
#[derive(Debug, Clone, PartialEq, Eq)]
pub enum SystemTaskMagic {
    /// Display
    Display,
    /// Assert
    Assert,
}

/// Module Magic
#[derive(Debug, Clone, PartialEq, Eq)]
pub enum ModuleMagic {
    /// Module Split.
    ModuleSplit,
    /// From Fn
    FromFn,
    /// Seq (modules chained in sequence)
    Sequential,
}

/// Mathematical value of an attribute.
pub enum AttrV {
    /// Synthesizable function
    Synthesize,
    /// Expression magic
    ExprMagic(ExprMagic),
    /// FFI module: its name and parameters
    FFI { module_name: Seq<char>, params: Seq<Seq<char>> },
    /// Interface magic
    InterfaceMagic(InterfaceMagic),
    /// System task
    SystemTask(SystemTaskMagic),
    /// Module magic
    ModuleMagic(ModuleMagic),
}

impl View for HazardFlowAttr {
    type V = AttrV;

    open spec fn view(&self) -> AttrV {
        match *self {
            HazardFlowAttr::Synthesize => AttrV::Synthesize,
            HazardFlowAttr::ExprMagic(m) => AttrV::ExprMagic(m),
            HazardFlowAttr::FFI { module_name, params } => AttrV::FFI {
                module_name: (*module_name)@,
                params: params@.map_values(|p: String| p@),
            },
            HazardFlowAttr::InterfaceMagic(m) => AttrV::InterfaceMagic(m),
            HazardFlowAttr::SystemTask(m) => AttrV::SystemTask(m),
            HazardFlowAttr::ModuleMagic(m) => AttrV::ModuleMagic(m),
        }
    }
}

/// The array magic named `s`.
pub open spec fn array_magic_of(s: Seq<char>) -> Option<ArrayMagic> {
    if s == "array"@ {
        Some(ArrayMagic::Array)
    } else if s == "set"@ {
        Some(ArrayMagic::SetElement)
    } else if s == "clip_const"@ {
        Some(ArrayMagic::ClipConst)
    } else if s == "zip"@ {
        Some(ArrayMagic::Zip)
    } else if s == "map"@ {
        Some(ArrayMagic::MapElements)
    } else if s == "fold"@ {
        Some(ArrayMagic::Fold)
    } else if s == "resize"@ {
        Some(ArrayMagic::Resize)
    } else if s == "chunk"@ {
        Some(ArrayMagic::Chunk)
    } else if s == "append"@ {
        Some(ArrayMagic::Append)
    } else if s == "concat"@ {
        Some(ArrayMagic::Concat)
    } else if s == "range"@ {
        Some(ArrayMagic::Range)
    } else if s == "from"@ {
        Some(ArrayMagic::From)
    } else if s == "index"@ {
        Some(ArrayMagic::Index)
    } else if s == "bitor"@ {
        Some(ArrayMagic::BitOr)
    } else if s == "bitand"@ {
        Some(ArrayMagic::BitAnd)
    } else if s == "bitxor"@ {
        Some(ArrayMagic::BitXor)
    } else if s == "repeat"@ {
        Some(ArrayMagic::Repeat)
    } else if s == "eq"@ {
        Some(ArrayMagic::Eq)
    } else if s == "ne"@ {
        Some(ArrayMagic::Ne)
    } else if s == "set_range"@ {
        Some(ArrayMagic::SetRange)
    } else {
        None
    }
}

/// The interface magic named `s`.
pub open spec fn interface_magic_of(s: Seq<char>) -> Option<InterfaceMagic> {
    if s == "fsm"@ {
        Some(InterfaceMagic::Fsm)
    } else if s == "composite_interface"@ {
        Some(InterfaceMagic::CompositeInterface)
    } else {
        None
    }
}

/// The integer magic named `s`.
pub open spec fn int_magic_of(s: Seq<char>) -> Option<IntMagic> {
    if s == "lt"@ {
        Some(IntMagic::Lt)
    } else if s == "le"@ {
        Some(IntMagic::Le)
    } else if s == "gt"@ {
        Some(IntMagic::Gt)
    } else if s == "ge"@ {
        Some(IntMagic::Ge)
    } else if s == "convert"@ {
        Some(IntMagic::Convert)
    } else if s == "sub"@ {
        Some(IntMagic::Sub)
    } else if s == "add"@ {
        Some(IntMagic::Add)
    } else if s == "shl"@ {
        Some(IntMagic::Shl)
    } else if s == "shr"@ {
        Some(IntMagic::Shr)
    } else if s == "not"@ {
        Some(IntMagic::Not)
    } else if s == "mul"@ {
        Some(IntMagic::Mul)
    } else {
        None
    }
}

/// The ADT magic named `s`.
pub open spec fn adt_magic_of(s: Seq<char>) -> Option<AdtMagic> {
    if s == "enum_eq"@ {
        Some(AdtMagic::EnumEq)
    } else if s == "enum_ne"@ {
        Some(AdtMagic::EnumNe)
    } else {
        None
    }
}

/// The system task named `s`.
pub open spec fn system_task_of(s: Seq<char>) -> Option<SystemTaskMagic> {
    if s == "display"@ {
        Some(SystemTaskMagic::Display)
    } else if s == "assert"@ {
        Some(SystemTaskMagic::Assert)
    } else {
        None
    }
}

/// The module magic named `s`.
pub open spec fn module_magic_of(s: Seq<char>) -> Option<ModuleMagic> {
    if s == "split"@ {
        Some(ModuleMagic::ModuleSplit)
    } else if s == "seq"@ {
        Some(ModuleMagic::Sequential)
    } else if s == "from_fn"@ {
        Some(ModuleMagic::FromFn)
    } else {
        None
    }
}

/// Index of the first `c` in `s`.
pub open spec fn first_char(s: Seq<char>, c: char) -> Option<int>
    decreases s.len(),
{
    if s.len() == 0 {
        None
    } else if s[0] == c {
        Some(0)
    } else {
        match first_char(s.drop_first(), c) {
            Some(i) => Some(i + 1),
            None => None,
        }
    }
}

/// The trimmed pieces that are not empty.
pub open spec fn nonempty_trimmed(pieces: Seq<Seq<char>>) -> Seq<Seq<char>>
    decreases pieces.len(),
{
    if pieces.len() == 0 {
        seq![]
    } else {
        let t = trim_spec(pieces.last());
        nonempty_trimmed(pieces.drop_last()) + if t.len() == 0 {
            seq![]
        } else {
            seq![t]
        }
    }
}

/// `s` declares an FFI module: a name, then parameters between `(` and `)`.
pub open spec fn ffi_ok(s: Seq<char>) -> bool {
    match first_char(s, '(') {
        Some(i) => first_char(s.skip(i + 1), ')') is Some,
        None => false,
    }
}

/// The FFI module that `s` declares: the name before the first `(`, and the
/// non-empty trimmed pieces between commas up to the first `)` after it.
pub open spec fn ffi_spec(s: Seq<char>) -> AttrV {
    let i = first_char(s, '(')->0;
    let rest = s.skip(i + 1);
    let j = first_char(rest, ')')->0;
    AttrV::FFI { module_name: s.take(i), params: nonempty_trimmed(split_on(rest.take(j), seq![','])) }
}

/// The tokens of a magic: the argument without whitespace and escaped
/// newlines, split at `::`.
pub open spec fn magic_tokens(arg: Seq<char>) -> Seq<Seq<char>> {
    split_on(remove_escaped_newlines(strip_ws(arg)), "::"@)
}

/// The argument names a magic that is registered.
pub open spec fn magic_ok(arg: Seq<char>) -> bool {
    let toks = magic_tokens(arg);
    let kind = toks[0];
    if kind == "x"@ {
        true
    } else if toks.len() < 2 {
        false
    } else if kind == "interface"@ {
        interface_magic_of(toks[1]) is Some
    } else if kind == "int"@ {
        int_magic_of(toks[1]) is Some
    } else if kind == "array"@ {
        array_magic_of(toks[1]) is Some
    } else if kind == "adt"@ {
        adt_magic_of(toks[1]) is Some
    } else if kind == "ffi"@ {
        ffi_ok(toks[1])
    } else if kind == "system"@ {
        system_task_of(toks[1]) is Some
    } else if kind == "module"@ {
        module_magic_of(toks[1]) is Some
    } else {
        false
    }
}

/// The attribute that a magic argument gives.
pub open spec fn magic_spec(arg: Seq<char>) -> AttrV {
    let toks = magic_tokens(arg);
    let kind = toks[0];
    if kind == "x"@ {
        AttrV::ExprMagic(ExprMagic::X)
    } else if kind == "interface"@ {
        AttrV::InterfaceMagic(interface_magic_of(toks[1])->0)
    } else if kind == "int"@ {
        AttrV::ExprMagic(ExprMagic::IntMagic(int_magic_of(toks[1])->0))
    } else if kind == "array"@ {
        AttrV::ExprMagic(ExprMagic::ArrayMagic(array_magic_of(toks[1])->0))
    } else if kind == "adt"@ {
        AttrV::ExprMagic(ExprMagic::AdtMagic(adt_magic_of(toks[1])->0))
    } else if kind == "ffi"@ {
        ffi_spec(toks[1])
    } else if kind == "system"@ {
        AttrV::SystemTask(system_task_of(toks[1])->0)
    } else {
        AttrV::ModuleMagic(module_magic_of(toks[1])->0)
    }
}

/// Index of the first `c` in `s`.
fn find_char(s: &Vec<char>, c: char) -> (r: Option<usize>)
    ensures
        r matches Some(i) ==> first_char(s@, c) == Some(i as int) && i < s.len(),
        r is None ==> first_char(s@, c) is None,
{
    let mut i: usize = 0;
    assert(s@.skip(0) =~= s@);
    while i < s.len()
        invariant
            i <= s.len(),
            first_char(s@, c) == match first_char(s@.skip(i as int), c) {
                Some(k) => Some(k + i),
                None => None,
            },
        decreases s.len() - i,
    {
        assert(s@.skip(i as int).drop_first() =~= s@.skip(i + 1));
        if s[i] == c {
            return Some(i);
        }
        i += 1;
    }
    None
}

impl HazardFlowAttr {
    /// The array magic named `s`.
    pub fn array_magic(s: &str) -> (r: Self)
        requires
            array_magic_of(s@) is Some,
        ensures
            r@ == AttrV::ExprMagic(ExprMagic::ArrayMagic(array_magic_of(s@)->0)),
    {
        let magic = if eq_str(s, "array") {
            ArrayMagic::Array
        } else if eq_str(s, "set") {
            ArrayMagic::SetElement
        } else if eq_str(s, "clip_const") {
            ArrayMagic::ClipConst
        } else if eq_str(s, "zip") {
            ArrayMagic::Zip
        } else if eq_str(s, "map") {
            ArrayMagic::MapElements
        } else if eq_str(s, "fold") {
            ArrayMagic::Fold
        } else if eq_str(s, "resize") {
            ArrayMagic::Resize
        } else if eq_str(s, "chunk") {
            ArrayMagic::Chunk
        } else if eq_str(s, "append") {
            ArrayMagic::Append
        } else if eq_str(s, "concat") {
            ArrayMagic::Concat
        } else if eq_str(s, "range") {
            ArrayMagic::Range
        } else if eq_str(s, "from") {
            ArrayMagic::From
        } else if eq_str(s, "index") {
            ArrayMagic::Index
        } else if eq_str(s, "bitor") {
            ArrayMagic::BitOr
        } else if eq_str(s, "bitand") {
            ArrayMagic::BitAnd
        } else if eq_str(s, "bitxor") {
            ArrayMagic::BitXor
        } else if eq_str(s, "repeat") {
            ArrayMagic::Repeat
        } else if eq_str(s, "eq") {
            ArrayMagic::Eq
        } else if eq_str(s, "ne") {
            ArrayMagic::Ne
        } else if eq_str(s, "set_range") {
            ArrayMagic::SetRange
        } else {
            vstd::pervasive::unreached()
        };
        HazardFlowAttr::ExprMagic(ExprMagic::ArrayMagic(magic))
    }

    /// The interface magic named `s`.
    pub fn interface_magic(s: &str) -> (r: Self)
        requires
            interface_magic_of(s@) is Some,
        ensures
            r@ == AttrV::InterfaceMagic(interface_magic_of(s@)->0),
    {
        if eq_str(s, "fsm") {
            HazardFlowAttr::InterfaceMagic(InterfaceMagic::Fsm)
        } else if eq_str(s, "composite_interface") {
            HazardFlowAttr::InterfaceMagic(InterfaceMagic::CompositeInterface)
        } else {
            vstd::pervasive::unreached()
        }
    }

    /// The integer magic named `s`.
    pub fn int_magic(s: &str) -> (r: Self)
        requires
            int_magic_of(s@) is Some,
        ensures
            r@ == AttrV::ExprMagic(ExprMagic::IntMagic(int_magic_of(s@)->0)),
    {
        let magic = if eq_str(s, "lt") {
            IntMagic::Lt
        } else if eq_str(s, "le") {
            IntMagic::Le
        } else if eq_str(s, "gt") {
            IntMagic::Gt
        } else if eq_str(s, "ge") {
            IntMagic::Ge
        } else if eq_str(s, "convert") {
            IntMagic::Convert
        } else if eq_str(s, "sub") {
            IntMagic::Sub
        } else if eq_str(s, "add") {
            IntMagic::Add
        } else if eq_str(s, "shl") {
            IntMagic::Shl
        } else if eq_str(s, "shr") {
            IntMagic::Shr
        } else if eq_str(s, "not") {
            IntMagic::Not
        } else if eq_str(s, "mul") {
            IntMagic::Mul
        } else {
            vstd::pervasive::unreached()
        };
        HazardFlowAttr::ExprMagic(ExprMagic::IntMagic(magic))
    }

    /// The ADT magic named `s`.
    pub fn adt_magic(s: &str) -> (r: Self)
        requires
            adt_magic_of(s@) is Some,
        ensures
            r@ == AttrV::ExprMagic(ExprMagic::AdtMagic(adt_magic_of(s@)->0)),
    {
        let magic = if eq_str(s, "enum_eq") {
            AdtMagic::EnumEq
        } else if eq_str(s, "enum_ne") {
            AdtMagic::EnumNe
        } else {
            vstd::pervasive::unreached()
        };
        HazardFlowAttr::ExprMagic(ExprMagic::AdtMagic(magic))
    }

    /// The FFI module that `s` declares: `name(param, ..)`.
    pub fn ffi(s: &str) -> (r: HazardFlowAttr)
        requires
            ffi_ok(s@),
        ensures
            r@ == ffi_spec(s@),
    {
        let chars = chars_of(s);
        let i = match find_char(&chars, '(') {
            Some(i) => i,
            None => vstd::pervasive::unreached(),
        };
        let rest = sub_chars(&chars, i + 1, chars.len());
        assert(rest@ =~= s@.skip(i + 1));
        let j = match find_char(&rest, ')') {
            Some(j) => j,
            None => vstd::pervasive::unreached(),
        };
        let inside = sub_chars(&rest, 0, j);
        let mut comma: Vec<char> = Vec::new();
        comma.push(',');
        let pieces = split_chars(&inside, &comma);
        let ghost pv = chars_views(pieces@);
        let mut params: Vec<String> = Vec::new();
        let mut k: usize = 0;
        assert(pv.take(0) =~= Seq::<Seq<char>>::empty());
        while k < pieces.len()
            invariant
                k <= pieces.len(),
                pv == chars_views(pieces@),
                params@.map_values(|p: String| p@) == nonempty_trimmed(pv.take(k as int)),
            decreases pieces.len() - k,
        {
            let t = trim_chars(&pieces[k]);
            let ghost before = params@;
            proof {
                assert(pv.take(k + 1).drop_last() =~= pv.take(k as int));
                assert(pv.take(k + 1).last() == pieces@[k as int]@);
            }
            if t.len() > 0 {
                params.push(string_from_chars(&t));
                assert(params@.map_values(|p: String| p@) =~= before.map_values(|p: String| p@) + seq![t@]);
            } else {
                assert(params@.map_values(|p: String| p@) =~= before.map_values(|p: String| p@) + seq![]);
            }
            k += 1;
        }
        assert(pv.take(pieces.len() as int) =~= pv);
        let name = string_from_chars(&sub_chars(&chars, 0, i));
        assert(comma@ =~= seq![',']);
        HazardFlowAttr::FFI { module_name: Box::new(name), params }
    }

    /// The system task named `s`.
    pub fn system(s: &str) -> (r: HazardFlowAttr)
        requires
            system_task_of(s@) is Some,
        ensures
            r@ == AttrV::SystemTask(system_task_of(s@)->0),
    {
        if eq_str(s, "display") {
            HazardFlowAttr::SystemTask(SystemTaskMagic::Display)
        } else if eq_str(s, "assert") {
            HazardFlowAttr::SystemTask(SystemTaskMagic::Assert)
        } else {
            vstd::pervasive::unreached()
        }
    }

    /// The module magic named `s`.
    pub fn module_magic(s: &str) -> (r: HazardFlowAttr)
        requires
            module_magic_of(s@) is Some,
        ensures
            r@ == AttrV::ModuleMagic(module_magic_of(s@)->0),
    {
        if eq_str(s, "split") {
            HazardFlowAttr::ModuleMagic(ModuleMagic::ModuleSplit)
        } else if eq_str(s, "seq") {
            HazardFlowAttr::ModuleMagic(ModuleMagic::Sequential)
        } else if eq_str(s, "from_fn") {
            HazardFlowAttr::ModuleMagic(ModuleMagic::FromFn)
        } else {
            vstd::pervasive::unreached()
        }
    }

    /// The attribute of a `#[hazardflow::magic(..)]` argument: whitespace and
    /// escaped newlines are dropped, the rest is split at `::`, and the first
    /// token names the kind of magic, the second the magic itself.
    pub fn magic(arg: &str) -> (r: HazardFlowAttr)
        requires
            magic_ok(arg@),
        ensures
            r@ == magic_spec(arg@),
    {
        let chars = chars_of(arg);
        let stripped = strip_whitespace(&chars);
        let cleaned = remove_escaped_newline_chars(&stripped);
        let sep = chars_of("::");
        proof {
            reveal_strlit("::");
        }
        let toks = split_chars(&cleaned, &sep);
        let ghost tv = chars_views(toks@);
        proof {
            lemma_split_nonempty(cleaned@, sep@, seq![]);
        }
        assert(tv == magic_tokens(arg@));
        let kind = string_from_chars(&toks[0]);
        if eq_str(kind.as_str(), "x") {
            return HazardFlowAttr::ExprMagic(ExprMagic::X);
        }
        let name = string_from_chars(&toks[1]);
        assert(name@ == tv[1]);
        if eq_str(kind.as_str(), "interface") {
            HazardFlowAttr::interface_magic(name.as_str())
        } else if eq_str(kind.as_str(), "int") {
            HazardFlowAttr::int_magic(name.as_str())
        } else if eq_str(kind.as_str(), "array") {
            HazardFlowAttr::array_magic(name.as_str())
        } else if eq_str(kind.as_str(), "adt") {
            HazardFlowAttr::adt_magic(name.as_str())
        } else if eq_str(kind.as_str(), "ffi") {
            HazardFlowAttr::ffi(name.as_str())
        } else if eq_str(kind.as_str(), "system") {
            HazardFlowAttr::system(name.as_str())
        } else if eq_str(kind.as_str(), "module") {
            HazardFlowAttr::module_magic(name.as_str())
        } else {
            vstd::pervasive::unreached()
        }
    }
}

impl IntMagic {
    /// Returns BinaryOp according to the magic function; `Not` and `Convert`
    /// are not binary operations.
    pub fn bin_op(&self) -> (r: BinaryOp)
        requires
            !(*self is Not),
            !(*self is Convert),
        ensures
            r == match *self {
                IntMagic::Shr => BinaryOp::ShiftRight,
                IntMagic::Shl => BinaryOp::ShiftLeft,
                IntMagic::Add => BinaryOp::Add,
                IntMagic::Sub => BinaryOp::Sub,
                IntMagic::Lt => BinaryOp::Less,
                IntMagic::Le => BinaryOp::LessEq,
                IntMagic::Gt => BinaryOp::Greater,
                IntMagic::Ge => BinaryOp::GreaterEq,
                _ => BinaryOp::Mul,
            },
    {
        match self {
            IntMagic::Shr => BinaryOp::ShiftRight,
            IntMagic::Shl => BinaryOp::ShiftLeft,
            IntMagic::Add => BinaryOp::Add,
            IntMagic::Sub => BinaryOp::Sub,
            IntMagic::Lt => BinaryOp::Less,
            IntMagic::Le => BinaryOp::LessEq,
            IntMagic::Gt => BinaryOp::Greater,
            IntMagic::Ge => BinaryOp::GreaterEq,
            IntMagic::Mul => BinaryOp::Mul,
            IntMagic::Not => vstd::pervasive::unreached(),
            IntMagic::Convert => vstd::pervasive::unreached(),
        }
    }
}

/// The one HazardFlow attribute of an item, if it has one; an item has at
/// most one.
pub fn single_attribute(attrs: Vec<HazardFlowAttr>) -> (r: Option<HazardFlowAttr>)
    requires
        attrs.len() <= 1,
    ensures
        attrs.len() == 0 ==> r is None,
        attrs.len() == 1 ==> r == Some(attrs@[0]),
{
    let mut attrs = attrs;
    attrs.pop()
}

} // verus!
