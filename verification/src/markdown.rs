//! Configuration for processing the links found in an entry's text. The
//! extraction and linking machinery itself lives with the surrounding
//! program; this type only carries which kinds of links it should act on.

use vstd::prelude::*;

verus! {

/// Which kinds of links of an entry's text are processed: entry-to-entry
/// links, creation of missing link targets, external addresses, and file
/// references.
pub struct LinkProcessor {
    process_links: bool,
    create_targets: bool,
    process_urls: bool,
    process_refs: bool,
}

impl LinkProcessor {
    pub closed spec fn links_on(&self) -> bool {
        self.process_links
    }

    pub closed spec fn targets_on(&self) -> bool {
        self.create_targets
    }

    pub closed spec fn urls_on(&self) -> bool {
        self.process_urls
    }

    pub closed spec fn refs_on(&self) -> bool {
        self.process_refs
    }

    /// Switch entry-to-entry link processing on or off.
    pub fn process_links(self, b: bool) -> (r: Self)
        ensures
            r.links_on() == b,
            r.targets_on() == self.targets_on(),
            r.urls_on() == self.urls_on(),
            r.refs_on() == self.refs_on(),
    {
        LinkProcessor { process_links: b, ..self }
    }

    /// Switch creation of missing link targets on or off.
    pub fn create_targets(self, b: bool) -> (r: Self)
        ensures
            r.links_on() == self.links_on(),
            r.targets_on() == b,
            r.urls_on() == self.urls_on(),
            r.refs_on() == self.refs_on(),
    {
        LinkProcessor { create_targets: b, ..self }
    }

    /// Switch external address processing on or off.
    pub fn process_urls(self, b: bool) -> (r: Self)
        ensures
            r.links_on() == self.links_on(),
            r.targets_on() == self.targets_on(),
            r.urls_on() == b,
            r.refs_on() == self.refs_on(),
    {
        LinkProcessor { process_urls: b, ..self }
    }

    /// Switch file reference processing on or off.
    pub fn process_refs(self, b: bool) -> (r: Self)
        ensures
            r.links_on() == self.links_on(),
            r.targets_on() == self.targets_on(),
            r.urls_on() == self.urls_on(),
            r.refs_on() == b,
    {
        LinkProcessor { process_refs: b, ..self }
    }

    /// Read accessors for the surrounding program that runs the links.
    pub fn is_process_links(&self) -> (r: bool)
        ensures
            r == self.links_on(),
    {
        self.process_links
    }

    pub fn is_create_targets(&self) -> (r: bool)
        ensures
            r == self.targets_on(),
    {
        self.create_targets
    }

    pub fn is_process_urls(&self) -> (r: bool)
        ensures
            r == self.urls_on(),
    {
        self.process_urls
    }

    pub fn is_process_refs(&self) -> (r: bool)
        ensures
            r == self.refs_on(),
    {
        self.process_refs
    }
}

impl Default for LinkProcessor {
    /// Entry links and external addresses on; target creation and file
    /// references off.
    fn default() -> (r: Self)
        ensures
            r.links_on(),
            !r.targets_on(),
            r.urls_on(),
            !r.refs_on(),
    {
        LinkProcessor {
            process_links: true,
            create_targets: false,
            process_urls: true,
            process_refs: false,
        }
    }
}

} // verus!
