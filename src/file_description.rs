//! Descriptive records of a data file and the files it was made from.
use vstd::prelude::*;

verus! {

/// A named value describing some aspect of a record.
#[derive(Debug, Clone)]
pub struct Param {
    pub name: String,
    pub value: String,
    pub accession: Option<u32>,
}

pub type ParamList = Vec<Param>;

/// A record that carries a list of parameters.
pub trait ParamDescribed: Sized {
    /// The record's parameters.
    spec fn param_list(&self) -> ParamList;

    /// The record with its parameters replaced by `p` and all else kept.
    spec fn with_param_list(&self, p: ParamList) -> Self;

    fn params(&self) -> (r: &[Param])
        ensures
            r@ == self.param_list()@,
    ;

    fn params_mut(&mut self) -> (r: &mut ParamList)
        ensures
            *r == old(self).param_list(),
            *final(self) == old(self).with_param_list(*final(r)),
    ;
}

/// A file that a data file was derived from.
#[derive(Debug, Clone, Default)]
pub struct SourceFile {
    pub name: String,
    pub location: String,
    pub id: String,
    pub file_format: Option<Param>,
    pub id_format: Option<Param>,
    pub params: ParamList,
}

/// What a data file holds and the files it came from.
#[derive(Debug, Clone, Default)]
pub struct FileDescription {
    pub contents: ParamList,
    pub source_files: Vec<SourceFile>,
}

impl ParamDescribed for SourceFile {
    open spec fn param_list(&self) -> ParamList {
        self.params
    }

    open spec fn with_param_list(&self, p: ParamList) -> SourceFile {
        SourceFile { params: p, ..*self }
    }

    fn params(&self) -> (r: &[Param]) {
        self.params.as_slice()
    }

    fn params_mut(&mut self) -> (r: &mut ParamList) {
        &mut self.params
    }
}

impl ParamDescribed for FileDescription {
    open spec fn param_list(&self) -> ParamList {
        self.contents
    }

    open spec fn with_param_list(&self, p: ParamList) -> FileDescription {
        FileDescription { contents: p, ..*self }
    }

    fn params(&self) -> (r: &[Param]) {
        self.contents.as_slice()
    }

    fn params_mut(&mut self) -> (r: &mut ParamList) {
        &mut self.contents
    }
}

} // verus!
