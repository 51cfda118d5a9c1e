//! Where the compiler's sysroot lies, from what the environment gives.

use vstd::prelude::*;
use vstd::string::*;

verus! {

/// The text of an optional string.
pub open spec fn opt_text(o: Option<&str>) -> Option<Seq<char>> {
    match o {
        Some(s) => Some(s@),
        None => None,
    }
}

/// `home/toolchains/toolchain` when both are given, else the explicit sysroot.
pub open spec fn sysroot_of(
    home: Option<Seq<char>>,
    toolchain: Option<Seq<char>>,
    sysroot: Option<Seq<char>>,
) -> Option<Seq<char>> {
    match (home, toolchain) {
        (Some(h), Some(t)) => Some(h + "/toolchains/"@ + t),
        _ => sysroot,
    }
}

/// The sysroot of a toolchain installed by rustup (`RUSTUP_HOME`,
/// `RUSTUP_TOOLCHAIN`), or else the one named by `RUST_SYSROOT`; `None` when
/// neither is known.
pub fn find_sysroot(home: Option<&str>, toolchain: Option<&str>, sysroot: Option<&str>) -> (r: Option<String>)
    ensures
        match r {
            Some(p) => sysroot_of(opt_text(home), opt_text(toolchain), opt_text(sysroot)) == Some(p@),
            None => sysroot_of(opt_text(home), opt_text(toolchain), opt_text(sysroot)).is_none(),
        },
{
    match (home, toolchain) {
        (Some(h), Some(t)) => {
            let mut s = String::from_str(h);
            s.append("/toolchains/");
            s.append(t);
            Some(s)
        },
        _ => match sysroot {
            Some(s) => Some(String::from_str(s)),
            None => None,
        },
    }
}

} // verus!
