//! The development options of the server, read from one text.
use vstd::prelude::*;

use crate::catalogue::contains_text;
use crate::text::chars_of;

verus! {

/// Which development aids the server turns on.
pub struct ServerOptions {
    /// Reload the browser when the server restarts.
    pub live_reload: bool,
    /// Tell browsers not to cache; otherwise responses carry cache headers
    /// and tags.
    pub no_cache: bool,
    /// Delay every response a little.
    pub simulate_lag: bool,
}

/// Whether `needle` occurs in `hay`.
fn mentions(hay: &Vec<char>, word: &str) -> (r: bool)
    ensures
        r == contains_text(hay@, word@),
{
    let needle = chars_of(word);
    crate::catalogue::contains_chars(hay, &needle)
}

impl ServerOptions {
    /// The options named in the options text: each aid is on when its name
    /// occurs anywhere in the text.
    pub fn parse(options: &str) -> (r: ServerOptions)
        ensures
            r.live_reload == contains_text(options@, "live_reload"@),
            r.no_cache == contains_text(options@, "no_cache"@),
            r.simulate_lag == contains_text(options@, "simulate_lag"@),
    {
        let text = chars_of(options);
        ServerOptions {
            live_reload: mentions(&text, "live_reload"),
            no_cache: mentions(&text, "no_cache"),
            simulate_lag: mentions(&text, "simulate_lag"),
        }
    }
}

} // verus!
