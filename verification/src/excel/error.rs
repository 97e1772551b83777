use vstd::prelude::*;

use crate::text::push_str;

verus! {

/// The errors of the spreadsheet tools. `Io` carries the message of the
/// underlying I/O error.
pub enum AppError {
    FileNotFound(String),
    SheetNotFound(String),
    InvalidCoordinate(String),
    Calamine(String),
    Io(String),
    General(String),
}

/// The text of an error.
pub open spec fn app_error_text(e: AppError) -> Seq<char> {
    match e {
        AppError::FileNotFound(m) => "文件未找到: "@ + m@,
        AppError::SheetNotFound(m) => "工作表未找到: "@ + m@,
        AppError::InvalidCoordinate(m) => "无效的单元格或区域坐标: "@ + m@,
        AppError::Calamine(m) => "Calamine 读取错误: "@ + m@,
        AppError::Io(m) => "IO 错误: "@ + m@,
        AppError::General(m) => m@,
    }
}

impl AppError {
    /// The text that reports the error.
    pub fn message(&self) -> (r: String)
        ensures
            r@ == app_error_text(*self),
    {
        let (prefix, m) = match self {
            AppError::FileNotFound(m) => ("文件未找到: ", m),
            AppError::SheetNotFound(m) => ("工作表未找到: ", m),
            AppError::InvalidCoordinate(m) => ("无效的单元格或区域坐标: ", m),
            AppError::Calamine(m) => ("Calamine 读取错误: ", m),
            AppError::Io(m) => ("IO 错误: ", m),
            AppError::General(m) => ("", m),
        };
        let mut out = prefix.to_owned();
        proof {
            reveal_strlit("");
        }
        push_str(&mut out, m.as_str());
        out
    }
}

} // verus!
