//! The command line: no argument runs the bar, `--input-backend` runs the
//! keyboard watcher.

use vstd::prelude::*;

use crate::text::{chars_eq_str, chars_of};

verus! {

/// Which of the two processes the binary runs as.
pub enum Mode {
    Ui,
    InputBackend,
}

/// The flag that selects the keyboard watcher.
pub open spec fn input_backend_flag() -> Seq<char> {
    "--input-backend"@
}

/// The message printed for any other command line.
pub open spec fn usage() -> Seq<char> {
    "usage: disturbar [--input-backend]"@
}

/// Picks the mode from the arguments that follow the program name.
pub fn parse_mode(args: Vec<String>) -> (r: Result<Mode, String>)
    ensures
        args@.len() == 0 <==> r matches Ok(Mode::Ui),
        (args@.len() == 1 && args@[0]@ == input_backend_flag()) <==> r matches Ok(
            Mode::InputBackend,
        ),
        r matches Err(msg) ==> msg@ == usage(),
{
    if args.len() == 0 {
        return Ok(Mode::Ui);
    }
    if args.len() == 1 {
        let arg = chars_of(args[0].as_str());
        if chars_eq_str(arg.as_slice(), "--input-backend") {
            return Ok(Mode::InputBackend);
        }
    }
    Err("usage: disturbar [--input-backend]".to_owned())
}

} // verus!
