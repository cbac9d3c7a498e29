//! License notices printed by the command-line front end.

use vstd::prelude::*;

verus! {

/// Notice printed at start-up.
pub const LICENSE_SHORT: &'static str = "UrbXtract  Copyright (C) 2025  Atheesh Thirumalairajan\nThis program comes with ABSOLUTELY NO WARRANTY; run with --license-info for details.\nThis is free software, and you are welcome to redistribute it\nunder certain conditions; run with --license-info for details.\n";

/// Notice printed for `--license-info`.
pub const LICENSE_FULL: &'static str = "UrbXtract\nCopyright (C) 2025  Atheesh Thirumalairajan\n\nThis program is free software: you can redistribute it and/or modify\nit under the terms of the GNU General Public License as published by\nthe Free Software Foundation, either version 3 of the License, or\n(at your option) any later version.\n\nThis program is distributed in the hope that it will be useful,\nbut WITHOUT ANY WARRANTY; without even the implied warranty of\nMERCHANTABILITY or FITNESS FOR A PARTICULAR PURPOSE.  See the\nGNU General Public License for more details.\n\nYou should have received a copy of the GNU General Public License\nalong with this program.  If not, see <https://www.gnu.org/licenses/>.\n";

pub fn get_license_string_short() -> (r: String)
    ensures
        r@ == LICENSE_SHORT@,
{
    String::from_str(LICENSE_SHORT)
}

pub fn get_license_string_full() -> (r: String)
    ensures
        r@ == LICENSE_FULL@,
{
    String::from_str(LICENSE_FULL)
}

} // verus!
