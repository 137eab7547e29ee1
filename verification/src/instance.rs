use vstd::prelude::*;

verus! {

/// Which nested compositor a display is launched inside.
#[derive(PartialEq, Eq, Clone, Copy, Debug)]
pub enum LaunchCompositors {
    River,
    Kwin,
    Native,
}

/// The label shown for a compositor choice.
pub open spec fn compositor_display_name(c: LaunchCompositors) -> Seq<char> {
    match c {
        LaunchCompositors::River => "River (nested)"@,
        LaunchCompositors::Kwin => "Kwin (nested)"@,
        LaunchCompositors::Native => "Native"@,
    }
}

/// The executable that starts a compositor, if one has to be started.
pub open spec fn compositor_executable(c: LaunchCompositors) -> Option<Seq<char>> {
    match c {
        LaunchCompositors::River => Some("river"@),
        LaunchCompositors::Kwin => Some("kwin_wayland"@),
        LaunchCompositors::Native => None,
    }
}

impl LaunchCompositors {
    pub fn display_name(&self) -> (res: String)
        ensures
            res@ == compositor_display_name(*self),
    {
        match self {
            LaunchCompositors::River => String::from_str("River (nested)"),
            LaunchCompositors::Kwin => String::from_str("Kwin (nested)"),
            LaunchCompositors::Native => String::from_str("Native"),
        }
    }

    pub fn launch_executable(&self) -> (res: Option<String>)
        ensures
            match res {
                Some(s) => compositor_executable(*self) == Some(s@),
                None => compositor_executable(*self) is None,
            },
    {
        match self {
            LaunchCompositors::River => Some(String::from_str("river")),
            LaunchCompositors::Kwin => Some(String::from_str("kwin_wayland")),
            LaunchCompositors::Native => None,
        }
    }
}

} // verus!
