//! macOS, where the scheme is declared in the application bundle.

use vstd::prelude::*;

verus! {

/// Why the scheme cannot be unregistered at run time on macOS.
pub open spec fn unregister_refusal() -> Seq<char> {
    "macOS URL schemes are declared in the signed app bundle. Remove/disable the CFBundleURLTypes entry in packaging/macos/Info.plist and rebuild the app to unregister ush."@
}

/// Unregistration is refused: the scheme is part of the signed bundle.
pub fn unregister_scheme(_scheme: &str) -> (r: Result<(), String>)
    ensures
        r matches Err(m) && m@ == unregister_refusal(),
{
    Err(
        "macOS URL schemes are declared in the signed app bundle. Remove/disable the CFBundleURLTypes entry in packaging/macos/Info.plist and rebuild the app to unregister ush.".to_string(),
    )
}

/// Where the bundle's `Info.plist` template lives in the source tree.
pub fn bundle_template() -> (r: &'static str)
    ensures
        r@ == "packaging/macos/Info.plist"@,
{
    "packaging/macos/Info.plist"
}

} // verus!
