//! Build-time asset URLs, resolved once at startup.

use vstd::prelude::*;

verus! {

/// The URLs that the build wrote into the document.
pub struct Assets {
    /// The stylesheet the readme frame links. Empty where the document does not
    /// name one, in which case the frame renders unstyled.
    pub markdown_css: String,
}

/// Take the asset URLs from the document's tags; the flag says that the
/// stylesheet's was missing.
pub fn init(markdown_css: Option<String>) -> (r: (Assets, bool))
    ensures
        r.0.markdown_css@ == (match markdown_css {
            Some(href) => href@,
            None => Seq::empty(),
        }),
        r.1 == (r.0.markdown_css@.len() == 0),
{
    let href = match markdown_css {
        Some(href) => href,
        None => String::new(),
    };
    let missing = href.as_str().is_empty();
    (Assets { markdown_css: href }, missing)
}

/// The URL of the stylesheet the readme frame links.
pub fn markdown_css(assets: &Assets) -> (r: String)
    ensures
        r@ == assets.markdown_css@,
{
    assets.markdown_css.clone()
}

} // verus!
