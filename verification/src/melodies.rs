//! The steps of the build pipeline: each has a name, under which the
//! hashes of its inputs are recorded, and the outputs it produces.
use vstd::prelude::*;

use crate::locations::{image_output, page_output, post_outputs};
use crate::paths::{file_name_of, join_of, with_extension_of};

verus! {

/// Bundling the site's scripts.
pub struct Parcel;

/// Copying the site's icon.
pub struct Favicon;

/// Compiling the site's style sheets.
pub struct SCSS;

/// Copying the site's images.
pub struct Images;

/// Rendering the standalone pages.
pub struct Pages;

/// Rendering the posts, with their plain text, metadata and search index.
pub struct Posts;

impl Parcel {
    pub fn name() -> (r: &'static str)
        ensures
            r@ == "Parcel"@,
    {
        "Parcel"
    }

    /// The bundled script.
    pub fn rendition() -> (r: Vec<&'static str>)
        ensures
            r@.len() == 1,
            r@[0]@ == "generated/static/main.js"@,
    {
        let mut r: Vec<&'static str> = Vec::new();
        r.push("generated/static/main.js");
        r
    }
}

impl Favicon {
    pub fn name() -> (r: &'static str)
        ensures
            r@ == "Favicon"@,
    {
        "Favicon"
    }

    /// The icon's source.
    pub fn source() -> (r: Vec<&'static str>)
        ensures
            r@.len() == 1,
            r@[0]@ == "content/favicon.svg"@,
    {
        let mut r: Vec<&'static str> = Vec::new();
        r.push("content/favicon.svg");
        r
    }

    /// The copied icon.
    pub fn rendition() -> (r: Vec<&'static str>)
        ensures
            r@.len() == 1,
            r@[0]@ == "generated/static/favicon.svg"@,
    {
        let mut r: Vec<&'static str> = Vec::new();
        r.push("generated/static/favicon.svg");
        r
    }
}

impl SCSS {
    pub fn name() -> (r: &'static str)
        ensures
            r@ == "SCSS"@,
    {
        "SCSS"
    }

    /// The compiled style sheet.
    pub fn rendition() -> (r: Vec<&'static str>)
        ensures
            r@.len() == 1,
            r@[0]@ == "generated/static/styles.css"@,
    {
        let mut r: Vec<&'static str> = Vec::new();
        r.push("generated/static/styles.css");
        r
    }
}

impl Images {
    pub fn name() -> (r: &'static str)
        ensures
            r@ == "Images"@,
    {
        "Images"
    }

    /// The copy of an image source.
    pub fn rendition_of(source: &str) -> (r: String)
        requires
            file_name_of(source@) is Some,
        ensures
            r@ == join_of("./generated/img"@, file_name_of(source@)->0),
    {
        image_output(source)
    }
}

impl Pages {
    pub fn name() -> (r: &'static str)
        ensures
            r@ == "Pages"@,
    {
        "Pages"
    }

    /// The rendered page of a page source.
    pub fn rendition_of(source: &str) -> (r: String)
        requires
            file_name_of(source@) is Some,
        ensures
            r@ == with_extension_of(join_of("./generated/pages/"@, file_name_of(source@)->0), "html"@),
    {
        page_output(source)
    }
}

impl Posts {
    pub fn name() -> (r: &'static str)
        ensures
            r@ == "Posts"@,
    {
        "Posts"
    }

    /// The outputs of a post source: its rendered page, plain text and
    /// metadata.
    pub fn renditions_of(source: &str) -> (r: Vec<String>)
        requires
            file_name_of(source@) is Some,
        ensures
            r@.len() == 3,
            r@[0]@ == with_extension_of(join_of("./generated/posts/"@, file_name_of(source@)->0), "html"@),
            r@[1]@ == with_extension_of(join_of("./generated/posts/"@, file_name_of(source@)->0), "txt"@),
            r@[2]@ == with_extension_of(join_of("./generated/posts/"@, file_name_of(source@)->0), "yml"@),
    {
        post_outputs(source)
    }
}

} // verus!
