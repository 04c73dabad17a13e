use vstd::prelude::*;

verus! {

/// The closed set of binary target platforms a vendor library may ship for.
/// Each platform has one fixed string form, used verbatim as the Maven
/// artifact classifier.
#[derive(Debug, Clone, Copy, PartialEq, Eq, Structural)]
pub enum BinaryPlatform {
    LinuxArm32,
    LinuxArm64,
    LinuxAthena,
    LinuxX86_64,
    OsxUniversal,
    WindowsArm64,
    WindowsX86_64,
    /// Not a real target: the classifier under which C++ header bundles are
    /// published.
    Headers,
}

/// The exact classifier string of each platform.
pub open spec fn spec_platform_str(p: BinaryPlatform) -> Seq<char> {
    match p {
        BinaryPlatform::LinuxArm32 => "linuxarm32"@,
        BinaryPlatform::LinuxArm64 => "linuxarm64"@,
        BinaryPlatform::LinuxAthena => "linuxathena"@,
        BinaryPlatform::LinuxX86_64 => "linuxx86-64"@,
        BinaryPlatform::OsxUniversal => "osxuniversal"@,
        BinaryPlatform::WindowsArm64 => "windowsarm64"@,
        BinaryPlatform::WindowsX86_64 => "windowsx86-64"@,
        BinaryPlatform::Headers => "headers"@,
    }
}

/// The platform a classifier string denotes, if any.
pub open spec fn spec_platform_of(s: Seq<char>) -> Option<BinaryPlatform> {
    if s == "linuxarm32"@ {
        Some(BinaryPlatform::LinuxArm32)
    } else if s == "linuxarm64"@ {
        Some(BinaryPlatform::LinuxArm64)
    } else if s == "linuxathena"@ {
        Some(BinaryPlatform::LinuxAthena)
    } else if s == "linuxx86-64"@ {
        Some(BinaryPlatform::LinuxX86_64)
    } else if s == "osxuniversal"@ {
        Some(BinaryPlatform::OsxUniversal)
    } else if s == "windowsarm64"@ {
        Some(BinaryPlatform::WindowsArm64)
    } else if s == "windowsx86-64"@ {
        Some(BinaryPlatform::WindowsX86_64)
    } else if s == "headers"@ {
        Some(BinaryPlatform::Headers)
    } else {
        None
    }
}

impl BinaryPlatform {
    /// The Maven classifier for this platform, exactly as it appears in
    /// artifact file names.
    pub fn to_str(&self) -> (r: &'static str)
        ensures
            r@ == spec_platform_str(*self),
    {
        match self {
            BinaryPlatform::LinuxArm32 => "linuxarm32",
            BinaryPlatform::LinuxArm64 => "linuxarm64",
            BinaryPlatform::LinuxAthena => "linuxathena",
            BinaryPlatform::LinuxX86_64 => "linuxx86-64",
            BinaryPlatform::OsxUniversal => "osxuniversal",
            BinaryPlatform::WindowsArm64 => "windowsarm64",
            BinaryPlatform::WindowsX86_64 => "windowsx86-64",
            BinaryPlatform::Headers => "headers",
        }
    }

    /// Decode a classifier string; accepts exactly the eight fixed forms.
    pub fn parse(s: &str) -> (r: Option<BinaryPlatform>)
        ensures
            r == spec_platform_of(s@),
    {
        if crate::text::str_eq(s, "linuxarm32") {
            Some(BinaryPlatform::LinuxArm32)
        } else if crate::text::str_eq(s, "linuxarm64") {
            Some(BinaryPlatform::LinuxArm64)
        } else if crate::text::str_eq(s, "linuxathena") {
            Some(BinaryPlatform::LinuxAthena)
        } else if crate::text::str_eq(s, "linuxx86-64") {
            Some(BinaryPlatform::LinuxX86_64)
        } else if crate::text::str_eq(s, "osxuniversal") {
            Some(BinaryPlatform::OsxUniversal)
        } else if crate::text::str_eq(s, "windowsarm64") {
            Some(BinaryPlatform::WindowsArm64)
        } else if crate::text::str_eq(s, "windowsx86-64") {
            Some(BinaryPlatform::WindowsX86_64)
        } else if crate::text::str_eq(s, "headers") {
            Some(BinaryPlatform::Headers)
        } else {
            None
        }
    }
}

} // verus!
