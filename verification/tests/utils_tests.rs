use hazardflow::compiler::ops::BinaryOp;
use hazardflow::compiler::CompileTarget;
use hazardflow::utils::attributes::{
    single_attribute, AdtMagic, ArrayMagic, ExprMagic, HazardFlowAttr, IntMagic, InterfaceMagic, ModuleMagic,
    SystemTaskMagic,
};
use hazardflow::utils::math::{align_usize, clog2, flog2, u32_to_bits, u64_to_bits, usize_to_bits, usize_to_bitvec};
use hazardflow::utils::string::{is_whitespace, indent, join_options, join_strings, usize_to_string};

#[test]
fn clog2_values() {
    assert_eq!(clog2(0), 0);
    assert_eq!(clog2(1), 0);
    assert_eq!(clog2(2), 1);
    assert_eq!(clog2(5), 3);
    assert_eq!(clog2(8), 3);
    assert_eq!(clog2(9), 4);
}

#[test]
fn flog2_values() {
    assert_eq!(flog2(1), 0);
    assert_eq!(flog2(5), 2);
    assert_eq!(flog2(8), 3);
    assert_eq!(flog2(1023), 9);
}

#[test]
fn align_usize_doc_example() {
    assert_eq!(align_usize(15, 8), 16);
    assert_eq!(align_usize(16, 8), 16);
    assert_eq!(align_usize(0, 4), 0);
}

#[test]
fn bits_of_values() {
    assert_eq!(usize_to_bitvec(4, 5), vec![true, false, true, false]);
    assert_eq!(usize_to_bits::<3>(6), [false, true, true]);
    assert_eq!(u32_to_bits::<2>(7), [true, true]);
    assert_eq!(u64_to_bits::<5>(16), [false, false, false, false, true]);
}

#[test]
fn join_options_skips_none() {
    assert_eq!(join_options("_", vec![Some("a".to_string()), None, Some("b".to_string())]), Some("a_b".to_string()));
    assert_eq!(join_options("_", vec![None, None]), None);
    assert_eq!(join_options("::", vec![Some("x".to_string())]), Some("x".to_string()));
}

#[test]
fn join_strings_and_decimal() {
    assert_eq!(join_strings(&vec!["a".to_string(), "b".to_string(), "c".to_string()], " -> "), "a -> b -> c");
    assert_eq!(usize_to_string(0), "0");
    assert_eq!(usize_to_string(1203), "1203");
}

#[test]
fn indent_lines() {
    assert_eq!(indent("a\nb".to_string(), 2), "  a\n  b");
    assert_eq!(indent("a\n".to_string(), 1), " a");
    assert_eq!(indent("".to_string(), 3), "");
    assert_eq!(indent("x\r\ny".to_string(), 1), " x\n y");
    assert_eq!(indent("\n\nz".to_string(), 1), " \n \n z");
    assert_eq!(indent("end\r".to_string(), 0), "end\r");
}

#[test]
fn magic_kinds() {
    assert_eq!(
        HazardFlowAttr::magic("array::map"),
        HazardFlowAttr::ExprMagic(ExprMagic::ArrayMagic(ArrayMagic::MapElements))
    );
    assert_eq!(HazardFlowAttr::magic(" int :: add "), HazardFlowAttr::ExprMagic(ExprMagic::IntMagic(IntMagic::Add)));
    assert_eq!(HazardFlowAttr::magic("x"), HazardFlowAttr::ExprMagic(ExprMagic::X));
    assert_eq!(HazardFlowAttr::magic("adt::enum_ne"), HazardFlowAttr::ExprMagic(ExprMagic::AdtMagic(AdtMagic::EnumNe)));
    assert_eq!(HazardFlowAttr::magic("interface::fsm"), HazardFlowAttr::InterfaceMagic(InterfaceMagic::Fsm));
    assert_eq!(HazardFlowAttr::magic("system::display"), HazardFlowAttr::SystemTask(SystemTaskMagic::Display));
    assert_eq!(HazardFlowAttr::magic("module::\\nseq"), HazardFlowAttr::ModuleMagic(ModuleMagic::Sequential));
}

#[test]
fn magic_ffi() {
    assert_eq!(
        HazardFlowAttr::magic("ffi::MyMod(WIDTH,\n DEPTH)"),
        HazardFlowAttr::FFI { module_name: Box::new("MyMod".to_string()), params: vec!["WIDTH".to_string(), "DEPTH".to_string()] }
    );
}

#[test]
fn ffi_params_trimmed() {
    assert_eq!(
        HazardFlowAttr::ffi("Foo( a , ,b )"),
        HazardFlowAttr::FFI { module_name: Box::new("Foo".to_string()), params: vec!["a".to_string(), "b".to_string()] }
    );
    assert_eq!(HazardFlowAttr::ffi("Bar()"), HazardFlowAttr::FFI { module_name: Box::new("Bar".to_string()), params: vec![] });
}

#[test]
fn named_magics() {
    assert_eq!(
        HazardFlowAttr::array_magic("set_range"),
        HazardFlowAttr::ExprMagic(ExprMagic::ArrayMagic(ArrayMagic::SetRange))
    );
    assert_eq!(HazardFlowAttr::int_magic("shr"), HazardFlowAttr::ExprMagic(ExprMagic::IntMagic(IntMagic::Shr)));
    assert_eq!(HazardFlowAttr::module_magic("split"), HazardFlowAttr::ModuleMagic(ModuleMagic::ModuleSplit));
    assert_eq!(HazardFlowAttr::system("assert"), HazardFlowAttr::SystemTask(SystemTaskMagic::Assert));
    assert_eq!(
        HazardFlowAttr::interface_magic("composite_interface"),
        HazardFlowAttr::InterfaceMagic(InterfaceMagic::CompositeInterface)
    );
}

#[test]
fn int_magic_binary_ops() {
    assert_eq!(IntMagic::Add.bin_op(), BinaryOp::Add);
    assert_eq!(IntMagic::Ge.bin_op(), BinaryOp::GreaterEq);
    assert_eq!(IntMagic::Shl.bin_op(), BinaryOp::ShiftLeft);
    assert_eq!(IntMagic::Mul.bin_op(), BinaryOp::Mul);
}

#[test]
fn single_attribute_of_item() {
    assert_eq!(single_attribute(vec![]), None);
    assert_eq!(single_attribute(vec![HazardFlowAttr::Synthesize]), Some(HazardFlowAttr::Synthesize));
}

#[test]
fn compile_targets() {
    assert!(CompileTarget::All.should_compile("anything"));
    let target = CompileTarget::FilterBy(vec!["fifo".to_string(), "arb".to_string()]);
    assert!(target.should_compile("crate::gen::fifo::top"));
    assert!(target.should_compile("arbiter"));
    assert!(!target.should_compile("crate::mux"));
    assert!(!CompileTarget::FilterBy(vec![]).should_compile("x"));
    assert!(CompileTarget::FilterBy(vec!["".to_string()]).should_compile("x"));
}

#[test]
fn whitespace_is_unicode_white_space() {
    for c in [' ', '\t', '\n', '\r', '\u{b}', '\u{c}', '\u{85}', '\u{a0}', '\u{1680}', '\u{2000}', '\u{200a}', '\u{2028}', '\u{2029}', '\u{202f}', '\u{205f}', '\u{3000}'] {
        assert!(is_whitespace(c));
        assert_eq!(is_whitespace(c), c.is_whitespace());
    }
    for c in ['A', '0', '_', '\u{200b}', '\u{feff}', '\u{180e}'] {
        assert!(!is_whitespace(c));
        assert_eq!(is_whitespace(c), c.is_whitespace());
    }
}
