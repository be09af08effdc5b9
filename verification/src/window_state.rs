//! The window placement that is remembered between runs.
use vstd::prelude::*;

verus! {

/// Where the window was and how large it was.
#[derive(Debug, Clone, Copy)]
pub struct WindowState {
    pub position: (i32, i32),
    pub size: (u32, u32),
}

impl WindowState {
    /// The placement a new window opens with: the remembered one, or the
    /// top-left corner of the screen at 800 by 600 when there is none.
    pub fn restore(stored: Option<WindowState>) -> (s: WindowState)
        ensures
            s == match stored {
                Some(w) => w,
                None => WindowState { position: (0, 0), size: (800, 600) },
            },
    {
        match stored {
            Some(w) => w,
            None => WindowState { position: (0, 0), size: (800, 600) },
        }
    }

    /// The placement remembered after the window moved to `(x, y)`: the new
    /// position, with the default size of 800 by 600.
    pub fn moved_to(x: i32, y: i32) -> (s: WindowState)
        ensures
            s.position == (x, y),
            s.size == (800u32, 600u32),
    {
        WindowState { position: (x, y), size: (800, 600) }
    }
}

} // verus!
