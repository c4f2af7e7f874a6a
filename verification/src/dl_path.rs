//! Where a symbol comes from.
use vstd::prelude::*;

use crate::c_string::CString;

verus! {

/// What the linker knows of an address.
#[derive(Debug)]
pub struct DlInfo {
    /// Whether it knows where the library begins.
    pub base_known: bool,
    /// The path of the library, if it knows one.
    pub file_name: Option<CString>,
    /// Whether it knows where the symbol is.
    pub symbol_known: bool,
    /// The name of the symbol, if it knows one.
    pub symbol_name: Option<CString>,
}

/// The path of the library and the name of the symbol at an address, as far as the linker knows
/// them. `None` is given where it knows nothing of the address.
pub fn get_dl_path_raw(info: Option<DlInfo>) -> (r: (Option<CString>, Option<CString>))
    ensures
        r == (match info {
            None => (None, None),
            Some(info) => (
                if info.base_known {
                    info.file_name
                } else {
                    None
                },
                if info.symbol_known {
                    info.symbol_name
                } else {
                    None
                },
            ),
        }),
{
    let info = match info {
        Some(info) => info,
        None => {
            return (None, None);
        },
    };
    let path_name = if info.base_known {
        info.file_name
    } else {
        None
    };
    let symbol_name = if info.symbol_known {
        info.symbol_name
    } else {
        None
    };
    (path_name, symbol_name)
}

} // verus!
