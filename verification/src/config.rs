//! Build configuration with typed defaults.
//!
//! Paths are plain strings here; the surrounding application turns them
//! into filesystem paths when it performs I/O.

use vstd::prelude::*;
use vstd::string::StringExecFns;

verus! {

/// Configuration for the blog generator.
#[derive(Debug, Clone)]
pub struct Config {
    /// Directory containing markdown source files.
    pub content_dir: String,
    /// Directory for generated output.
    pub public_dir: String,
    /// Maximum image width (images larger will be resized).
    pub max_image_width: u32,
    /// Timezone offset in hours (for display dates).
    pub timezone_offset_hours: i32,
    /// Site brand name shown in header.
    pub brand_name: String,
    /// Whether to inline CSS into HTML (eliminates render-blocking).
    pub inline_css: bool,
}

impl Config {
    /// Create config with default values.
    pub fn new() -> (r: Self)
        ensures
            r.content_dir@ == "../content"@,
            r.public_dir@ == "../public"@,
            r.max_image_width == 1200u32,
            r.timezone_offset_hours == 8i32,
            r.brand_name@ == "CODE A DUCK"@,
            r.inline_css == true,
    {
        Self::default()
    }

    /// Builder: set content directory.
    pub fn content_dir(self, path: &str) -> (r: Self)
        ensures
            r == (Config { content_dir: r.content_dir, ..self }),
            r.content_dir@ == path@,
    {
        Self { content_dir: String::from_str(path), ..self }
    }

    /// Builder: set public (output) directory.
    pub fn public_dir(self, path: &str) -> (r: Self)
        ensures
            r == (Config { public_dir: r.public_dir, ..self }),
            r.public_dir@ == path@,
    {
        Self { public_dir: String::from_str(path), ..self }
    }

    /// Builder: set max image width.
    pub fn max_image_width(self, width: u32) -> (r: Self)
        ensures
            r == (Config { max_image_width: width, ..self }),
    {
        Self { max_image_width: width, ..self }
    }

    /// Builder: set timezone offset.
    pub fn timezone_offset(self, hours: i32) -> (r: Self)
        ensures
            r == (Config { timezone_offset_hours: hours, ..self }),
    {
        Self { timezone_offset_hours: hours, ..self }
    }

    /// Builder: set brand name.
    pub fn brand_name(self, name: &str) -> (r: Self)
        ensures
            r == (Config { brand_name: r.brand_name, ..self }),
            r.brand_name@ == name@,
    {
        Self { brand_name: String::from_str(name), ..self }
    }

    /// Get the posts output directory.
    pub fn posts_dir(&self) -> (r: String)
        ensures
            r@ == self.public_dir@ + "/posts"@,
    {
        self.public_dir.clone().concat("/posts")
    }

    /// Get the tags output directory.
    pub fn tags_dir(&self) -> (r: String)
        ensures
            r@ == self.public_dir@ + "/tags"@,
    {
        self.public_dir.clone().concat("/tags")
    }

    /// Get the images output directory.
    pub fn images_dir(&self) -> (r: String)
        ensures
            r@ == self.public_dir@ + "/images"@,
    {
        self.public_dir.clone().concat("/images")
    }
}

impl Default for Config {
    fn default() -> (r: Self)
        ensures
            r.content_dir@ == "../content"@,
            r.public_dir@ == "../public"@,
            r.max_image_width == 1200u32,
            r.timezone_offset_hours == 8i32,
            r.brand_name@ == "CODE A DUCK"@,
            r.inline_css == true,
    {
        Self {
            content_dir: String::from_str("../content"),
            public_dir: String::from_str("../public"),
            max_image_width: 1200,
            timezone_offset_hours: 8,
            brand_name: String::from_str("CODE A DUCK"),
            inline_css: true,
        }
    }
}

} // verus!
