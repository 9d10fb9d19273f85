//! The status line every workspace shows: a message and its tone.
use vstd::prelude::*;

use crate::text::{decimal, push_decimal, push_str, string_of_all};

verus! {

/// How a status message is styled.
#[derive(Clone, Copy, Debug, PartialEq, Eq, Structural)]
pub enum StatusTone {
    Neutral,
    Success,
    Warning,
    Error,
}

impl Default for StatusTone {
    fn default() -> (t: Self)
        ensures
            t == StatusTone::Neutral,
    {
        StatusTone::Neutral
    }
}

impl StatusTone {
    /// The tone's class in the archive workspaces (BNK, DZip, PAK), where
    /// success is `ok`.
    pub fn class(self) -> (s: &'static str)
        ensures
            self == StatusTone::Neutral ==> s@ == "neutral"@,
            self == StatusTone::Success ==> s@ == "ok"@,
            self == StatusTone::Warning ==> s@ == "warning"@,
            self == StatusTone::Error ==> s@ == "error"@,
    {
        match self {
            StatusTone::Neutral => "neutral",
            StatusTone::Success => "ok",
            StatusTone::Warning => "warning",
            StatusTone::Error => "error",
        }
    }

    /// The tone's class in the document workspaces (Compiled-Text,
    /// Crypt-Data, NEWTON, Particle), where success is `success`.
    pub fn document_class(self) -> (s: &'static str)
        ensures
            self == StatusTone::Neutral ==> s@ == "neutral"@,
            self == StatusTone::Success ==> s@ == "success"@,
            self == StatusTone::Warning ==> s@ == "warning"@,
            self == StatusTone::Error ==> s@ == "error"@,
    {
        match self {
            StatusTone::Neutral => "neutral",
            StatusTone::Success => "success",
            StatusTone::Warning => "warning",
            StatusTone::Error => "error",
        }
    }
}

/// A status message with its tone.
pub struct AppStatus {
    pub message: String,
    pub tone: StatusTone,
}

impl AppStatus {
    pub fn new(message: String, tone: StatusTone) -> (s: Self)
        ensures
            s.message@ == message@,
            s.tone == tone,
    {
        AppStatus { message, tone }
    }
}

impl Default for AppStatus {
    /// An empty, neutral status.
    fn default() -> (s: Self)
        ensures
            s.message@.len() == 0,
            s.tone == StatusTone::Neutral,
    {
        AppStatus { message: String::new(), tone: StatusTone::Neutral }
    }
}

/// What a manifest check reports: that it passed, or how many errors and
/// warnings it found; errors make the status an error, warnings alone a
/// warning.
pub fn validation_status(errors: usize, warnings: usize) -> (s: AppStatus)
    ensures
        errors == 0 && warnings == 0 ==> s.message@ == "清单校验通过。"@,
        !(errors == 0 && warnings == 0) ==> s.message@ == "校验完成："@ + decimal(errors as nat) + " 个错误，"@
            + decimal(warnings as nat) + " 个警告。"@,
        s.tone == if errors > 0 {
            StatusTone::Error
        } else if warnings > 0 {
            StatusTone::Warning
        } else {
            StatusTone::Success
        },
{
    let message = if errors == 0 && warnings == 0 {
        "清单校验通过。".to_string()
    } else {
        let mut v: Vec<char> = Vec::new();
        push_str(&mut v, "校验完成：");
        push_decimal(&mut v, errors as u64);
        push_str(&mut v, " 个错误，");
        push_decimal(&mut v, warnings as u64);
        push_str(&mut v, " 个警告。");
        string_of_all(&v)
    };
    let tone = if errors > 0 {
        StatusTone::Error
    } else if warnings > 0 {
        StatusTone::Warning
    } else {
        StatusTone::Success
    };
    AppStatus::new(message, tone)
}

} // verus!
