//! The report codes of the surrounding compiler's diagnostic subsystem.
//!
//! The pass itself only ever emits `UselessSubstitution`; the full list is
//! kept so reports can be carried alongside those of other analyses, and
//! each code renders to the short string the compiler prints.

use vstd::prelude::*;

verus! {

/// A diagnostic code.
#[derive(Clone, Copy, PartialEq, Eq, Structural, Debug)]
pub enum ReportCode {
    UnclosedComment,
    FileOs,
    NoMainFoundInProject,
    MultipleMain,
    MissingSemicolon,
    UnrecognizedInclude,
    UnrecognizedVersion,
    UnrecognizedPragma,
    ExpectedIdentifier,
    IncludeNotFound,
    IllegalExpression,
    MultiplePragma,
    NoCompilerVersionWarning,
    CompilerVersionError,
    WrongTypesInAssignOperationOperatorSignal,
    WrongTypesInAssignOperationOperatorNoSignal,
    WrongTypesInAssignOperationTemplate,
    WrongTypesInAssignOperationExpression,
    WrongTypesInAssignOperationArrayTemplates,
    WrongTypesInAssignOperationDims(usize, usize),
    WrongNumberOfArguments(usize, usize),
    UndefinedFunction,
    UndefinedTemplate,
    UninitializedSymbolInExpression,
    UnableToTypeFunction,
    UnreachableConstraints,
    UnreachableTags,
    UnreachableSignals,
    UnknownIndex,
    UnknownDimension,
    SameFunctionDeclaredTwice,
    SameTemplateDeclaredTwice,
    SameSymbolDeclaredTwice,
    StaticInfoWasOverwritten,
    SignalInLineInitialization,
    SignalOutsideOriginalScope,
    FunctionWrongNumberOfArguments,
    FunctionInconsistentTyping,
    FunctionPathWithoutReturn,
    FunctionReturnError,
    ForbiddenDeclarationInFunction,
    NonHomogeneousArray(usize, usize),
    NonBooleanCondition,
    NonCompatibleBranchTypes,
    NonEqualTypesInExpression,
    NonExistentSymbol,
    MainComponentWithTags,
    TemplateCallAsArgument,
    TemplateWrongNumberOfArguments,
    TemplateWithReturnStatement,
    TypeCantBeUseAsCondition,
    EmptyArrayInlineDeclaration,
    PrefixOperatorWithWrongTypes,
    ParallelOperatorWithWrongTypes,
    InfixOperatorWithWrongTypes,
    InvalidArgumentInCall,
    InconsistentReturnTypesInBlock,
    InconsistentStaticInformation,
    InvalidArrayAccess(usize, usize),
    InvalidSignalAccess,
    InvalidTagAccess,
    InvalidTagAccessAfterArray,
    InvalidArraySize(usize),
    InvalidArraySizeT,
    InvalidArrayType,
    ForStatementIllConstructed,
    BadArrayAccess,
    AssigningAComponentTwice,
    AssigningASignalTwice,
    NotAllowedOperation,
    ConstraintGeneratorInFunction,
    WrongSignalTags,
    InvalidPartialArray,
    MustBeSingleArithmetic(usize),
    MustBeSingleArithmeticT,
    MustBeArithmetic,
    OutputTagCannotBeModifiedOutside,
    MustBeSameDimension(usize, usize),
    ExpectedDimDiffGotDim(usize, usize),
    RuntimeError,
    RuntimeWarning,
    UnknownTemplate,
    NonQuadratic,
    NonConstantArrayLength,
    NonComputableExpression,
    UnconstrainedSignal,
    UnconstrainedIOSignal,
    UnusedInput,
    UnusedOutput,
    ErrorWat2Wasm,
    CustomGateIntermediateSignalWarning,
    CustomGateConstraintError,
    CustomGateSubComponentError,
    CustomGatesPragmaError,
    CustomGatesVersionError,
    AnonymousCompError,
    UnderscoreWithNoSignalWarning,
    TupleError,
    InvalidSignalTagAccess,
    UninitializedComponent,
    UselessSubstitution,
}

/// The short string a code renders to.
pub open spec fn code_string(c: ReportCode) -> Seq<char> {
    match c {
        ReportCode::NoMainFoundInProject => "P1001"@,
        ReportCode::MultipleMain => "P1002"@,
        ReportCode::CompilerVersionError => "P1003"@,
        ReportCode::NoCompilerVersionWarning => "P1004"@,
        ReportCode::WrongTypesInAssignOperationOperatorSignal => "T2000"@,
        ReportCode::WrongTypesInAssignOperationOperatorNoSignal => "T2000"@,
        ReportCode::WrongTypesInAssignOperationArrayTemplates => "T2000"@,
        ReportCode::WrongTypesInAssignOperationTemplate => "T2000"@,
        ReportCode::WrongTypesInAssignOperationExpression => "T2000"@,
        ReportCode::WrongTypesInAssignOperationDims(..) => "T2000"@,
        ReportCode::UnclosedComment => "P1005"@,
        ReportCode::FileOs => "P1006"@,
        ReportCode::MissingSemicolon => "P1008"@,
        ReportCode::UnrecognizedInclude => "P1009"@,
        ReportCode::UnrecognizedVersion => "P1010"@,
        ReportCode::UnrecognizedPragma => "P1011"@,
        ReportCode::IllegalExpression => "P1012"@,
        ReportCode::MultiplePragma => "P1013"@,
        ReportCode::IncludeNotFound => "P1014"@,
        ReportCode::ExpectedIdentifier => "P1015"@,
        ReportCode::UndefinedFunction => "T2001"@,
        ReportCode::UndefinedTemplate => "T2002"@,
        ReportCode::UninitializedSymbolInExpression => "T2003"@,
        ReportCode::UnableToTypeFunction => "T2004"@,
        ReportCode::UnreachableConstraints => "T2005"@,
        ReportCode::SameFunctionDeclaredTwice => "T2006"@,
        ReportCode::SameTemplateDeclaredTwice => "T2007"@,
        ReportCode::SameSymbolDeclaredTwice => "T2008"@,
        ReportCode::StaticInfoWasOverwritten => "T2009"@,
        ReportCode::SignalInLineInitialization => "T2010"@,
        ReportCode::SignalOutsideOriginalScope => "T2011"@,
        ReportCode::FunctionWrongNumberOfArguments => "T2012"@,
        ReportCode::FunctionInconsistentTyping => "T2013"@,
        ReportCode::FunctionPathWithoutReturn => "T2014"@,
        ReportCode::FunctionReturnError => "T2015"@,
        ReportCode::ForbiddenDeclarationInFunction => "T2016"@,
        ReportCode::NonHomogeneousArray(..) => "T2017"@,
        ReportCode::NonBooleanCondition => "T2018"@,
        ReportCode::NonCompatibleBranchTypes => "T2019"@,
        ReportCode::NonEqualTypesInExpression => "T2020"@,
        ReportCode::NonExistentSymbol => "T2021"@,
        ReportCode::TemplateCallAsArgument => "T2022"@,
        ReportCode::TemplateWrongNumberOfArguments => "T2023"@,
        ReportCode::TemplateWithReturnStatement => "T2024"@,
        ReportCode::TypeCantBeUseAsCondition => "T2025"@,
        ReportCode::EmptyArrayInlineDeclaration => "T2026"@,
        ReportCode::PrefixOperatorWithWrongTypes => "T2027"@,
        ReportCode::ParallelOperatorWithWrongTypes => "T2047"@,
        ReportCode::InfixOperatorWithWrongTypes => "T2028"@,
        ReportCode::InvalidArgumentInCall => "T2029"@,
        ReportCode::InconsistentReturnTypesInBlock => "T2030"@,
        ReportCode::InconsistentStaticInformation => "T2031"@,
        ReportCode::InvalidArrayAccess(..) => "T2032"@,
        ReportCode::InvalidSignalAccess => "T2046"@,
        ReportCode::InvalidSignalTagAccess => "T2047"@,
        ReportCode::InvalidTagAccess => "T2048"@,
        ReportCode::InvalidTagAccessAfterArray => "T2049"@,
        ReportCode::InvalidArraySize(..) => "T2033"@,
        ReportCode::InvalidArraySizeT => "T2033"@,
        ReportCode::InvalidArrayType => "T2034"@,
        ReportCode::ForStatementIllConstructed => "T2035"@,
        ReportCode::BadArrayAccess => "T2035"@,
        ReportCode::AssigningAComponentTwice => "T2036"@,
        ReportCode::AssigningASignalTwice => "T2037"@,
        ReportCode::NotAllowedOperation => "T2038"@,
        ReportCode::ConstraintGeneratorInFunction => "T2039"@,
        ReportCode::WrongSignalTags => "T2040"@,
        ReportCode::UnknownIndex => "T2042"@,
        ReportCode::InvalidPartialArray => "T2043"@,
        ReportCode::MustBeSingleArithmetic(..) => "T2044"@,
        ReportCode::MustBeSingleArithmeticT => "T2044"@,
        ReportCode::ExpectedDimDiffGotDim(..) => "T2045"@,
        ReportCode::MustBeSameDimension(..) => "T2046"@,
        ReportCode::MustBeArithmetic => "T2047"@,
        ReportCode::OutputTagCannotBeModifiedOutside => "T2048"@,
        ReportCode::UnreachableTags => "T2049"@,
        ReportCode::UnreachableSignals => "T2050"@,
        ReportCode::MainComponentWithTags => "T2051"@,
        ReportCode::RuntimeError => "T3001"@,
        ReportCode::RuntimeWarning => "T3002"@,
        ReportCode::UnknownDimension => "T20460"@,
        ReportCode::UnknownTemplate => "T20461"@,
        ReportCode::NonQuadratic => "T20462"@,
        ReportCode::NonConstantArrayLength => "T20463"@,
        ReportCode::NonComputableExpression => "T20464"@,
        ReportCode::WrongNumberOfArguments(..) => "T20465"@,
        ReportCode::UninitializedComponent => "T20466"@,
        ReportCode::UnconstrainedSignal => "CA01"@,
        ReportCode::UnconstrainedIOSignal => "CA02"@,
        ReportCode::UnusedInput => "CA03"@,
        ReportCode::UnusedOutput => "CA04"@,
        ReportCode::ErrorWat2Wasm => "W01"@,
        ReportCode::CustomGateIntermediateSignalWarning => "CG01"@,
        ReportCode::CustomGateConstraintError => "CG02"@,
        ReportCode::CustomGateSubComponentError => "CG03"@,
        ReportCode::CustomGatesPragmaError => "CG04"@,
        ReportCode::CustomGatesVersionError => "CG05"@,
        ReportCode::AnonymousCompError => "TAC01"@,
        ReportCode::TupleError => "TAC02"@,
        ReportCode::UnderscoreWithNoSignalWarning => "TAC03"@,
        ReportCode::UselessSubstitution => "????"@,
    }
}

impl ReportCode {
    /// Render the code as the short string the compiler prints.
    pub fn as_code_str(&self) -> (r: &'static str)
        ensures
            r@ == code_string(*self),
    {
        match self {
            ReportCode::NoMainFoundInProject => "P1001",
            ReportCode::MultipleMain => "P1002",
            ReportCode::CompilerVersionError => "P1003",
            ReportCode::NoCompilerVersionWarning => "P1004",
            ReportCode::WrongTypesInAssignOperationOperatorSignal => "T2000",
            ReportCode::WrongTypesInAssignOperationOperatorNoSignal => "T2000",
            ReportCode::WrongTypesInAssignOperationArrayTemplates => "T2000",
            ReportCode::WrongTypesInAssignOperationTemplate => "T2000",
            ReportCode::WrongTypesInAssignOperationExpression => "T2000",
            ReportCode::WrongTypesInAssignOperationDims(..) => "T2000",
            ReportCode::UnclosedComment => "P1005",
            ReportCode::FileOs => "P1006",
            ReportCode::MissingSemicolon => "P1008",
            ReportCode::UnrecognizedInclude => "P1009",
            ReportCode::UnrecognizedVersion => "P1010",
            ReportCode::UnrecognizedPragma => "P1011",
            ReportCode::IllegalExpression => "P1012",
            ReportCode::MultiplePragma => "P1013",
            ReportCode::IncludeNotFound => "P1014",
            ReportCode::ExpectedIdentifier => "P1015",
            ReportCode::UndefinedFunction => "T2001",
            ReportCode::UndefinedTemplate => "T2002",
            ReportCode::UninitializedSymbolInExpression => "T2003",
            ReportCode::UnableToTypeFunction => "T2004",
            ReportCode::UnreachableConstraints => "T2005",
            ReportCode::SameFunctionDeclaredTwice => "T2006",
            ReportCode::SameTemplateDeclaredTwice => "T2007",
            ReportCode::SameSymbolDeclaredTwice => "T2008",
            ReportCode::StaticInfoWasOverwritten => "T2009",
            ReportCode::SignalInLineInitialization => "T2010",
            ReportCode::SignalOutsideOriginalScope => "T2011",
            ReportCode::FunctionWrongNumberOfArguments => "T2012",
            ReportCode::FunctionInconsistentTyping => "T2013",
            ReportCode::FunctionPathWithoutReturn => "T2014",
            ReportCode::FunctionReturnError => "T2015",
            ReportCode::ForbiddenDeclarationInFunction => "T2016",
            ReportCode::NonHomogeneousArray(..) => "T2017",
            ReportCode::NonBooleanCondition => "T2018",
            ReportCode::NonCompatibleBranchTypes => "T2019",
            ReportCode::NonEqualTypesInExpression => "T2020",
            ReportCode::NonExistentSymbol => "T2021",
            ReportCode::TemplateCallAsArgument => "T2022",
            ReportCode::TemplateWrongNumberOfArguments => "T2023",
            ReportCode::TemplateWithReturnStatement => "T2024",
            ReportCode::TypeCantBeUseAsCondition => "T2025",
            ReportCode::EmptyArrayInlineDeclaration => "T2026",
            ReportCode::PrefixOperatorWithWrongTypes => "T2027",
            ReportCode::ParallelOperatorWithWrongTypes => "T2047",
            ReportCode::InfixOperatorWithWrongTypes => "T2028",
            ReportCode::InvalidArgumentInCall => "T2029",
            ReportCode::InconsistentReturnTypesInBlock => "T2030",
            ReportCode::InconsistentStaticInformation => "T2031",
            ReportCode::InvalidArrayAccess(..) => "T2032",
            ReportCode::InvalidSignalAccess => "T2046",
            ReportCode::InvalidSignalTagAccess => "T2047",
            ReportCode::InvalidTagAccess => "T2048",
            ReportCode::InvalidTagAccessAfterArray => "T2049",
            ReportCode::InvalidArraySize(..) => "T2033",
            ReportCode::InvalidArraySizeT => "T2033",
            ReportCode::InvalidArrayType => "T2034",
            ReportCode::ForStatementIllConstructed => "T2035",
            ReportCode::BadArrayAccess => "T2035",
            ReportCode::AssigningAComponentTwice => "T2036",
            ReportCode::AssigningASignalTwice => "T2037",
            ReportCode::NotAllowedOperation => "T2038",
            ReportCode::ConstraintGeneratorInFunction => "T2039",
            ReportCode::WrongSignalTags => "T2040",
            ReportCode::UnknownIndex => "T2042",
            ReportCode::InvalidPartialArray => "T2043",
            ReportCode::MustBeSingleArithmetic(..) => "T2044",
            ReportCode::MustBeSingleArithmeticT => "T2044",
            ReportCode::ExpectedDimDiffGotDim(..) => "T2045",
            ReportCode::MustBeSameDimension(..) => "T2046",
            ReportCode::MustBeArithmetic => "T2047",
            ReportCode::OutputTagCannotBeModifiedOutside => "T2048",
            ReportCode::UnreachableTags => "T2049",
            ReportCode::UnreachableSignals => "T2050",
            ReportCode::MainComponentWithTags => "T2051",
            ReportCode::RuntimeError => "T3001",
            ReportCode::RuntimeWarning => "T3002",
            ReportCode::UnknownDimension => "T20460",
            ReportCode::UnknownTemplate => "T20461",
            ReportCode::NonQuadratic => "T20462",
            ReportCode::NonConstantArrayLength => "T20463",
            ReportCode::NonComputableExpression => "T20464",
            ReportCode::WrongNumberOfArguments(..) => "T20465",
            ReportCode::UninitializedComponent => "T20466",
            ReportCode::UnconstrainedSignal => "CA01",
            ReportCode::UnconstrainedIOSignal => "CA02",
            ReportCode::UnusedInput => "CA03",
            ReportCode::UnusedOutput => "CA04",
            ReportCode::ErrorWat2Wasm => "W01",
            ReportCode::CustomGateIntermediateSignalWarning => "CG01",
            ReportCode::CustomGateConstraintError => "CG02",
            ReportCode::CustomGateSubComponentError => "CG03",
            ReportCode::CustomGatesPragmaError => "CG04",
            ReportCode::CustomGatesVersionError => "CG05",
            ReportCode::AnonymousCompError => "TAC01",
            ReportCode::TupleError => "TAC02",
            ReportCode::UnderscoreWithNoSignalWarning => "TAC03",
            ReportCode::UselessSubstitution => "????",
        }
    }
}

} // verus!
