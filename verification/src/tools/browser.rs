//! What a browser can be asked to do.

use vstd::prelude::*;

verus! {

/// One action in a browser page.
#[derive(Debug, Clone)]
pub enum BrowserAction {
    /// Open a URL.
    Open { url: String },
    /// Take a snapshot of the page's elements.
    Snapshot { interactive_only: bool, compact: bool, depth: Option<u32> },
    /// Click an element.
    Click { selector: String },
    /// Fill a form field.
    Fill { selector: String, value: String },
    /// Type into an element.
    Type { selector: String, text: String },
    /// Read the text of an element.
    GetText { selector: String },
    /// Read the title of the page.
    GetTitle,
    /// Read the URL of the page.
    GetUrl,
    /// Take a picture of the page.
    Screenshot { path: Option<String>, full_page: bool },
    /// Wait for an element, a time or a text.
    Wait { selector: Option<String>, ms: Option<u64>, text: Option<String> },
    /// Press a key.
    Press { key: String },
    /// Move the pointer over an element.
    Hover { selector: String },
    /// Scroll the page.
    Scroll { direction: String, pixels: Option<u32> },
    /// Ask whether an element can be seen.
    IsVisible { selector: String },
    /// Close the browser.
    Close,
    /// Find an element by what it means, and act on it.
    Find { by: String, value: String, action: String, fill_value: Option<String> },
}

} // verus!
