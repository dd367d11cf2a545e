use vstd::prelude::*;

verus! {

/// An error of a storage engine.
#[derive(Clone, Debug, PartialEq, Eq)]
pub enum EngineError {
    /// No column family has this name.
    CFName(String),
    /// The engine failed otherwise.
    Engine(String),
}

/// A key range, from `start_key` included to `end_key` excluded.
pub struct Range<'a> {
    pub start_key: &'a [u8],
    pub end_key: &'a [u8],
}

impl<'a> Range<'a> {
    pub fn new(start_key: &'a [u8], end_key: &'a [u8]) -> (r: Range<'a>)
        ensures
            r.start_key@ == start_key@,
            r.end_key@ == end_key@,
    {
        Range { start_key, end_key }
    }
}

/// An engine whose column families can be looked up by name.
pub trait CFHandleExt {
    type CFHandle;

    fn cf_handle(&self, name: &str) -> Result<&Self::CFHandle, EngineError>;
}

/// The table properties that an engine collected over some ranges.
pub trait TablePropertiesCollection {}

/// An engine that collects the properties of the tables in key ranges.
pub trait TablePropertiesExt: CFHandleExt {
    type TablePropertiesCollection: TablePropertiesCollection;

    fn get_properties_of_tables_in_range(
        &self,
        cf: &Self::CFHandle,
        ranges: &[Range],
    ) -> Result<Self::TablePropertiesCollection, EngineError>;

    /// The properties of the tables of column family `cfname` in the one
    /// range from `start_key` to `end_key`.
    fn get_range_properties_cf(&self, cfname: &str, start_key: &[u8], end_key: &[u8]) -> Result<
        Self::TablePropertiesCollection,
        EngineError,
    > {
        let cf = match self.cf_handle(cfname) {
            Ok(cf) => cf,
            Err(e) => return Err(e),
        };
        let ranges = vec![Range::new(start_key, end_key)];
        self.get_properties_of_tables_in_range(cf, ranges.as_slice())
    }
}

} // verus!
