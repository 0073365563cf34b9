use vstd::prelude::*;

pub mod feed;
pub mod frame;
pub mod rpc;
pub mod style;
pub mod supervisor;
pub mod text;
pub mod vt;

pub use feed::param_or;
pub use feed::parse_params;
pub use frame::build_styled_frame;
pub use frame::Frame;
pub use frame::Line;
pub use frame::Segment;
pub use rpc::handle_request;
pub use rpc::now_unix_seconds;
pub use rpc::ok_true;
pub use rpc::Dispatch;
pub use rpc::JsonValue;
pub use style::ansi_16_color;
pub use style::applied_style;
pub use style::rgb_hex;
pub use style::style_key;
pub use style::xterm_256_color;
pub use style::CellStyle;
pub use style::Color;
pub use supervisor::window_key;
pub use supervisor::SidecarState;
pub use supervisor::WindowStatus;
pub use text::char_display_width;
pub use text::str_to_chars;
pub use vt::blank_cell;
pub use vt::make_row;
pub use vt::VtLite;

verus! {

/// The value following the first occurrence of a flag name among the
/// arguments, scanning from position `i`.
pub open spec fn spec_flag_from(args: Seq<String>, name: Seq<char>, i: int) -> Option<Seq<char>>
    decreases args.len() - i
    when 0 <= i <= args.len()
{
    if i >= args.len() {
        None
    } else if args[i]@ == name {
        if i + 1 < args.len() {
            Some(args[i + 1]@)
        } else {
            None
        }
    } else {
        spec_flag_from(args, name, i + 1)
    }
}

/// The value of a `--flag` style argument: what follows the first occurrence
/// of the name, if anything does.
#[verifier::loop_isolation(false)]
pub fn parse_flag(args: &Vec<String>, name: &str) -> (r: Option<String>)
    ensures
        match r {
            Some(v) => spec_flag_from(args@, name@, 0) == Some(v@),
            None => spec_flag_from(args@, name@, 0) is None,
        },
{
    let name_s = name.to_owned();
    let mut i: usize = 0;
    while i < args.len()
        invariant
            i <= args@.len(),
            spec_flag_from(args@, name@, 0) == spec_flag_from(args@, name@, i as int),
        decreases args@.len() - i,
    {
        if args[i] == name_s {
            if i + 1 < args.len() {
                return Some(args[i + 1].clone());
            }
            return None;
        }
        i = i + 1;
    }
    None
}

} // verus!
