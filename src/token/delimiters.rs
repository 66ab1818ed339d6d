//! The delimiter characters of the annotated text, all of them full-width.
use vstd::prelude::*;

verus! {

/// Ruby base prefix `｜` (U+FF5C).
pub const RUBY_PREFIX: char = '｜';

/// Ruby gloss opening `《` (U+300A).
pub const RUBY_BEGIN: char = '《';

/// Ruby gloss closing `》` (U+300B).
pub const RUBY_END: char = '》';

/// Command opening bracket `［` (U+FF3B).
pub const COMMAND_BEGIN: char = '［';

/// Command closing bracket `］` (U+FF3D).
pub const COMMAND_END: char = '］';

/// Command identifier `＃` (U+FF03), which follows the opening bracket of a command.
pub const IGETA: char = '＃';

/// Glyph reference mark `※` (U+203B).
pub const GAIJI_MARK: char = '※';

/// Accent decomposition opening `〔` (U+3014).
pub const ACCENT_BEGIN: char = '〔';

/// Accent decomposition closing `〕` (U+3015).
pub const ACCENT_END: char = '〕';

} // verus!
