//! The library's error type.

use vstd::prelude::*;

verus! {

/// Why an operation of the repository failed.
#[derive(Debug)]
pub enum AppError {
    /// A storage constraint refused the change (the text says which).
    Database(String),
    /// A file could not be read or written.
    Io(String),
    /// A JSON text could not be read.
    Json(String),
    /// A backup archive could not be read or written.
    Zip(String),
    /// The input broke one of the library's rules.
    Validation(String),
    /// No record has the given id.
    NotFound,
}

pub enum AppErrorV {
    Database(Seq<char>),
    Io(Seq<char>),
    Json(Seq<char>),
    Zip(Seq<char>),
    Validation(Seq<char>),
    NotFound,
}

impl View for AppError {
    type V = AppErrorV;

    open spec fn view(&self) -> AppErrorV {
        match self {
            AppError::Database(m) => AppErrorV::Database(m@),
            AppError::Io(m) => AppErrorV::Io(m@),
            AppError::Json(m) => AppErrorV::Json(m@),
            AppError::Zip(m) => AppErrorV::Zip(m@),
            AppError::Validation(m) => AppErrorV::Validation(m@),
            AppError::NotFound => AppErrorV::NotFound,
        }
    }
}

impl AppError {
    /// The text the error is shown with.
    pub fn message(&self) -> (r: String)
        ensures
            r@ == error_text(self@),
    {
        match self {
            AppError::Database(m) => {
                let mut s = "数据库错误：".to_owned();
                crate::json::append(&mut s, m.as_str());
                s
            },
            AppError::Io(m) => {
                let mut s = "文件操作失败：".to_owned();
                crate::json::append(&mut s, m.as_str());
                s
            },
            AppError::Json(m) => {
                let mut s = "数据格式错误：".to_owned();
                crate::json::append(&mut s, m.as_str());
                s
            },
            AppError::Zip(m) => {
                let mut s = "压缩包错误：".to_owned();
                crate::json::append(&mut s, m.as_str());
                s
            },
            AppError::Validation(m) => m.clone(),
            AppError::NotFound => "记录不存在".to_owned(),
        }
    }
}

/// The text each error is shown with.
pub open spec fn error_text(e: AppErrorV) -> Seq<char> {
    match e {
        AppErrorV::Database(m) => "数据库错误："@ + m,
        AppErrorV::Io(m) => "文件操作失败："@ + m,
        AppErrorV::Json(m) => "数据格式错误："@ + m,
        AppErrorV::Zip(m) => "压缩包错误："@ + m,
        AppErrorV::Validation(m) => m,
        AppErrorV::NotFound => "记录不存在"@,
    }
}

pub type AppResult<T> = Result<T, AppError>;

} // verus!
