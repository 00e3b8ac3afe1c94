//! The per-invocation resolution context: the decoded main document and the
//! two resource bundles, answering the path-keyed lookups the compilation
//! engine issues while it runs.

use vstd::prelude::*;

use crate::bundle::{ResolveError, ResourceBundle};
use crate::codec::{
    decode_images, decode_templates, image_entries_of, image_entry_model, template_entries_of,
    template_entry_model, BundleError,
};
use crate::source::{decode_main_source, main_source_model, SourceError};

verus! {

/// Why an invocation's inputs could not be decoded.
#[derive(Debug)]
pub enum BuildError {
    Bundle(BundleError),
    Source(SourceError),
}

/// A bundle whose entries are exactly the decoded entries of `raw`.
pub open spec fn image_bundle_matches(b: ResourceBundle<Vec<u8>>, raw: Seq<char>) -> bool {
    let entries = image_entries_of(raw);
    &&& b.wf()
    &&& b.names_v().len() == entries.len()
    &&& b.items@.len() == entries.len()
    &&& forall|i: int| 0 <= i < entries.len() ==> #[trigger] image_entry_model(entries[i]) is Some
    &&& forall|i: int|
        0 <= i < entries.len() ==> b.names_v()[i] == ((#[trigger] image_entry_model(
            entries[i],
        ))->0).0
    &&& forall|i: int|
        0 <= i < entries.len() ==> b.items@[i]@ == ((#[trigger] image_entry_model(entries[i]))->0).1
}

/// A bundle whose entries are exactly the decoded entries of `raw`.
pub open spec fn template_bundle_matches(b: ResourceBundle<String>, raw: Seq<char>) -> bool {
    let entries = template_entries_of(raw);
    &&& b.wf()
    &&& b.names_v().len() == entries.len()
    &&& b.items@.len() == entries.len()
    &&& forall|i: int|
        0 <= i < entries.len() ==> #[trigger] template_entry_model(entries[i]) is Some
    &&& forall|i: int|
        0 <= i < entries.len() ==> b.names_v()[i] == ((#[trigger] template_entry_model(
            entries[i],
        ))->0).0
    &&& forall|i: int|
        0 <= i < entries.len() ==> b.items@[i]@ == ((#[trigger] template_entry_model(
            entries[i],
        ))->0).1
}

/// One invocation's self-contained resolution context: decoded main document
/// text, image bundle, template bundle. Built fresh per invocation and shared
/// with nothing.
#[derive(Debug)]
pub struct SimpleWorld {
    pub main_text: String,
    pub images: ResourceBundle<Vec<u8>>,
    pub templates: ResourceBundle<String>,
}

impl SimpleWorld {
    pub open spec fn wf(self) -> bool {
        self.images.wf() && self.templates.wf()
    }

    /// Gathers the invocation's inputs. The main document is decoded eagerly,
    /// so an undecodable document fails before the engine ever runs.
    pub fn new(
        typst_source: &str,
        images: ResourceBundle<Vec<u8>>,
        templates: ResourceBundle<String>,
    ) -> (r: Result<SimpleWorld, SourceError>)
        requires
            images.wf(),
            templates.wf(),
        ensures
            match r {
                Ok(w) => {
                    &&& w.wf()
                    &&& main_source_model(typst_source@) is Ok
                    &&& w.main_text@ == main_source_model(typst_source@)->Ok_0
                    &&& w.images == images
                    &&& w.templates == templates
                },
                Err(e) => main_source_model(typst_source@) is Err && e == main_source_model(
                    typst_source@,
                )->Err_0,
            },
    {
        match decode_main_source(typst_source) {
            Ok(text) => Ok(SimpleWorld { main_text: text, images, templates }),
            Err(e) => Err(e),
        }
    }

    /// Answers an engine request for a binary asset: the image entry bearing
    /// the path, or not-found carrying the path — never a substitute entry.
    pub fn resolve_image<'a>(&'a self, path: &str) -> (r: Result<&'a Vec<u8>, ResolveError>)
        requires
            self.wf(),
        ensures
            match r {
                Ok(item) => self.images.contains_name(path@) && self.images.lookup(path@) is Some
                    && *item == self.images.items@[self.images.lookup(path@)->0],
                Err(e) => !self.images.contains_name(path@) && e.path@ == path@,
            },
    {
        self.images.resolve(path)
    }

    /// Answers an engine request for an importable source: the template entry
    /// bearing the path, or not-found carrying the path.
    pub fn resolve_template<'a>(&'a self, path: &str) -> (r: Result<&'a String, ResolveError>)
        requires
            self.wf(),
        ensures
            match r {
                Ok(item) => self.templates.contains_name(path@) && self.templates.lookup(
                    path@,
                ) is Some && *item == self.templates.items@[self.templates.lookup(path@)->0],
                Err(e) => !self.templates.contains_name(path@) && e.path@ == path@,
            },
    {
        self.templates.resolve(path)
    }
}

/// The whole input-decoding stage of one invocation: both wire bundles and the
/// main document, each failure fatal and reported as what it is.
pub fn build_world(typst_source: &str, image_raw: &str, template_raw: &str) -> (r: Result<
    SimpleWorld,
    BuildError,
>)
    ensures
        match r {
            Ok(w) => {
                &&& w.wf()
                &&& main_source_model(typst_source@) is Ok
                &&& w.main_text@ == main_source_model(typst_source@)->Ok_0
                &&& image_bundle_matches(w.images, image_raw@)
                &&& template_bundle_matches(w.templates, template_raw@)
            },
            Err(e) => match e {
                BuildError::Bundle(be) => {
                    &&& (be.kind == crate::codec::BundleKind::Image ==> 0 <= be.index
                        < image_entries_of(image_raw@).len() && image_entry_model(
                        image_entries_of(image_raw@)[be.index as int],
                    ) is None)
                    &&& (be.kind == crate::codec::BundleKind::Template ==> 0 <= be.index
                        < template_entries_of(template_raw@).len() && template_entry_model(
                        template_entries_of(template_raw@)[be.index as int],
                    ) is None)
                },
                BuildError::Source(se) => main_source_model(typst_source@) is Err && se
                    == main_source_model(typst_source@)->Err_0,
            },
        },
{
    let images = match decode_images(image_raw) {
        Ok(b) => b,
        Err(e) => {
            return Err(BuildError::Bundle(e));
        },
    };
    let templates = match decode_templates(template_raw) {
        Ok(b) => b,
        Err(e) => {
            return Err(BuildError::Bundle(e));
        },
    };
    match SimpleWorld::new(typst_source, images, templates) {
        Ok(w) => Ok(w),
        Err(e) => Err(BuildError::Source(e)),
    }
}

} // verus!
