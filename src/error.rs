use vstd::prelude::*;

verus! {

/// Every way in which an attempt can fail. Identity alone decides the message.
#[derive(Clone, Copy, Debug, PartialEq, Eq, Structural)]
pub enum ErrorCode {
    NoncalculableCharacter,
    FormulaNotEntered,
    NoSpaceBetweenOperators,
    OperatorNotEntered,
    FailedConvertNum,
    InsufficientOperand,
    NotComplete,
    UndefinedOperator,
    ResultTooMuch,
    FailedAddCsvColumn,
    FailedAddCsvData,
}

/// The message shown for each kind of failure.
pub open spec fn message_text(e: ErrorCode) -> Seq<char> {
    match e {
        ErrorCode::NoncalculableCharacter => "計算不能な文字が含まれています。"@,
        ErrorCode::FormulaNotEntered => "式が入力されていない可能性があります。"@,
        ErrorCode::NoSpaceBetweenOperators => "演算子間にスペースが含まれていません。"@,
        ErrorCode::OperatorNotEntered => "演算子が入力されていません。"@,
        ErrorCode::FailedConvertNum => "数値に変換できませんでした。"@,
        ErrorCode::InsufficientOperand => "被演算子(数値)が不足しています。"@,
        ErrorCode::NotComplete => "計算が正常に完了しませんでした。"@,
        ErrorCode::UndefinedOperator => "未定義演算子が使用されています。"@,
        ErrorCode::ResultTooMuch => "計算結果が大きすぎます。"@,
        ErrorCode::FailedAddCsvColumn => "ログファイル(csv)へカラムを追加できませんでした。"@,
        ErrorCode::FailedAddCsvData => "ログファイル(csv)へデータを追加できませんでした。"@,
    }
}

impl ErrorCode {
    /// The human-readable message of this kind of failure.
    pub fn message(&self) -> (r: &'static str)
        ensures
            r@ == message_text(*self),
    {
        match self {
            ErrorCode::NoncalculableCharacter => "計算不能な文字が含まれています。",
            ErrorCode::FormulaNotEntered => "式が入力されていない可能性があります。",
            ErrorCode::NoSpaceBetweenOperators => "演算子間にスペースが含まれていません。",
            ErrorCode::OperatorNotEntered => "演算子が入力されていません。",
            ErrorCode::FailedConvertNum => "数値に変換できませんでした。",
            ErrorCode::InsufficientOperand => "被演算子(数値)が不足しています。",
            ErrorCode::NotComplete => "計算が正常に完了しませんでした。",
            ErrorCode::UndefinedOperator => "未定義演算子が使用されています。",
            ErrorCode::ResultTooMuch => "計算結果が大きすぎます。",
            ErrorCode::FailedAddCsvColumn => "ログファイル(csv)へカラムを追加できませんでした。",
            ErrorCode::FailedAddCsvData => "ログファイル(csv)へデータを追加できませんでした。",
        }
    }
}

} // verus!
