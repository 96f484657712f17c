use vstd::prelude::*;

verus! {

/// Shape of one region of the database file.
#[derive(Clone, Copy, Debug, PartialEq, Eq, Structural)]
pub struct RegionLayout {
    pub num_pages: u32,
    pub header_pages: u32,
    pub page_size: u32,
}

impl RegionLayout {
    pub fn new(num_pages: u32, header_pages: u32, page_size: u32) -> (r: Self)
        ensures
            r == (RegionLayout { num_pages, header_pages, page_size }),
    {
        RegionLayout { num_pages, header_pages, page_size }
    }

    pub fn num_pages(&self) -> (n: u32)
        ensures
            n == self.num_pages,
    {
        self.num_pages
    }

    pub fn get_header_pages(&self) -> (n: u32)
        ensures
            n == self.header_pages,
    {
        self.header_pages
    }

    pub fn page_size(&self) -> (n: u32)
        ensures
            n == self.page_size,
    {
        self.page_size
    }
}

/// Shape of the whole database file: some full regions and an optional
/// trailing region that is only partly filled.
#[derive(Clone, Copy, Debug, PartialEq, Eq, Structural)]
pub struct DatabaseLayout {
    pub full_region_layout: RegionLayout,
    pub num_full_regions: u32,
    pub trailing_partial_region: Option<RegionLayout>,
}

impl DatabaseLayout {
    pub fn new(
        full_regions: u32,
        full_region: RegionLayout,
        trailing_region: Option<RegionLayout>,
    ) -> (l: Self)
        ensures
            l == (DatabaseLayout {
                full_region_layout: full_region,
                num_full_regions: full_regions,
                trailing_partial_region: trailing_region,
            }),
    {
        DatabaseLayout {
            full_region_layout: full_region,
            num_full_regions: full_regions,
            trailing_partial_region: trailing_region,
        }
    }

    pub fn full_region_layout(&self) -> (r: &RegionLayout)
        ensures
            *r == self.full_region_layout,
    {
        &self.full_region_layout
    }

    pub fn trailing_region_layout(&self) -> (r: Option<&RegionLayout>)
        ensures
            r == match self.trailing_partial_region {
                Some(t) => Some(&t),
                None => None::<&RegionLayout>,
            },
    {
        match &self.trailing_partial_region {
            Some(t) => Some(t),
            None => None,
        }
    }

    pub fn num_full_regions(&self) -> (n: u32)
        ensures
            n == self.num_full_regions,
    {
        self.num_full_regions
    }
}

} // verus!
