//! Plain diff records produced by the checkers, and the run configuration
//! they read.

use vstd::prelude::*;

verus! {

/// The type tag of a document node.
#[derive(Clone, Copy, Debug, PartialEq, Eq, Structural)]
pub enum ValueType {
    Null,
    Boolean,
    Number,
    String,
    Array,
    Object,
}

impl ValueType {
    /// The fixed name under which this tag is reported in a `TypeDiff`.
    pub open spec fn spec_name(self) -> Seq<char> {
        match self {
            ValueType::Null => "null"@,
            ValueType::Boolean => "bool"@,
            ValueType::Number => "number"@,
            ValueType::String => "string"@,
            ValueType::Array => "array"@,
            ValueType::Object => "object"@,
        }
    }

    /// Renders the tag name used in type diff reports.
    pub fn name(&self) -> (r: String)
        ensures
            r@ == self.spec_name(),
    {
        match self {
            ValueType::Null => "null".to_owned(),
            ValueType::Boolean => "bool".to_owned(),
            ValueType::Number => "number".to_owned(),
            ValueType::String => "string".to_owned(),
            ValueType::Array => "array".to_owned(),
            ValueType::Object => "object".to_owned(),
        }
    }
}

/// Which side of an array comparison a record speaks about.
#[derive(Clone, Copy, Debug, PartialEq, Eq, Structural)]
pub enum ArrayDiffDesc {
    AHas,
    AMisses,
    BHas,
    BMisses,
}

/// One of the two compared documents, identified by its display name.
#[derive(Debug)]
pub struct WorkingFile {
    pub name: String,
}

impl WorkingFile {
    pub fn new(name: String) -> (r: WorkingFile)
        ensures
            r.name == name,
    {
        WorkingFile { name }
    }
}

impl Clone for WorkingFile {
    fn clone(&self) -> (r: Self)
        ensures
            r.name@ == self.name@,
    {
        WorkingFile { name: self.name.clone() }
    }
}

/// The array-ordering policy of one comparison run.
#[derive(Debug)]
pub struct Config {
    pub array_same_order: bool,
}

impl Config {
    pub fn new(array_same_order: bool) -> (r: Config)
        ensures
            r.array_same_order == array_same_order,
    {
        Config { array_same_order }
    }
}

impl Clone for Config {
    fn clone(&self) -> (r: Self)
        ensures
            r == *self,
    {
        Config { array_same_order: self.array_same_order }
    }
}

/// The immutable context a comparison runs under: the two side labels and
/// the array-ordering policy.
#[derive(Debug)]
pub struct WorkingContext {
    pub file_a: WorkingFile,
    pub file_b: WorkingFile,
    pub config: Config,
}

impl WorkingContext {
    pub fn new(file_a: WorkingFile, file_b: WorkingFile, config: Config) -> (r: WorkingContext)
        ensures
            r.file_a == file_a,
            r.file_b == file_b,
            r.config == config,
    {
        WorkingContext { file_a, file_b, config }
    }
}

impl Clone for WorkingContext {
    fn clone(&self) -> (r: Self)
        ensures
            r.file_a.name@ == self.file_a.name@,
            r.file_b.name@ == self.file_b.name@,
            r.config == self.config,
    {
        WorkingContext {
            file_a: self.file_a.clone(),
            file_b: self.file_b.clone(),
            config: self.config.clone(),
        }
    }
}

/// Mathematical image of a `KeyDiff`.
pub struct KeyDiffV {
    pub key: Seq<char>,
    pub has: Seq<char>,
    pub misses: Seq<char>,
}

/// A key present on one side and missing on the other, at a given path.
#[derive(Debug, PartialEq)]
pub struct KeyDiff {
    pub key: String,
    pub has: String,
    pub misses: String,
}

impl DeepView for KeyDiff {
    type V = KeyDiffV;

    open spec fn deep_view(&self) -> KeyDiffV {
        KeyDiffV { key: self.key@, has: self.has@, misses: self.misses@ }
    }
}

impl Clone for KeyDiff {
    fn clone(&self) -> (r: Self)
        ensures
            r.deep_view() == self.deep_view(),
    {
        KeyDiff { key: self.key.clone(), has: self.has.clone(), misses: self.misses.clone() }
    }
}

impl KeyDiff {
    pub fn new(key: String, has: String, misses: String) -> (r: KeyDiff)
        ensures
            r.deep_view() == (KeyDiffV { key: key@, has: has@, misses: misses@ }),
    {
        KeyDiff { key, has, misses }
    }
}

/// Mathematical image of a `TypeDiff`.
pub struct TypeDiffV {
    pub key: Seq<char>,
    pub type1: Seq<char>,
    pub type2: Seq<char>,
}

/// Differing type tags observed at a path both sides define.
#[derive(Debug, PartialEq)]
pub struct TypeDiff {
    pub key: String,
    pub type1: String,
    pub type2: String,
}

impl DeepView for TypeDiff {
    type V = TypeDiffV;

    open spec fn deep_view(&self) -> TypeDiffV {
        TypeDiffV { key: self.key@, type1: self.type1@, type2: self.type2@ }
    }
}

impl Clone for TypeDiff {
    fn clone(&self) -> (r: Self)
        ensures
            r.deep_view() == self.deep_view(),
    {
        TypeDiff { key: self.key.clone(), type1: self.type1.clone(), type2: self.type2.clone() }
    }
}

impl TypeDiff {
    pub fn new(key: String, type1: String, type2: String) -> (r: TypeDiff)
        ensures
            r.deep_view() == (TypeDiffV { key: key@, type1: type1@, type2: type2@ }),
    {
        TypeDiff { key, type1, type2 }
    }
}

/// Mathematical image of a `ValueDiff`.
pub struct ValueDiffV {
    pub key: Seq<char>,
    pub value1: Seq<char>,
    pub value2: Seq<char>,
}

/// Two differing canonical renderings observed at one path.
#[derive(Debug, PartialEq)]
pub struct ValueDiff {
    pub key: String,
    pub value1: String,
    pub value2: String,
}

impl DeepView for ValueDiff {
    type V = ValueDiffV;

    open spec fn deep_view(&self) -> ValueDiffV {
        ValueDiffV { key: self.key@, value1: self.value1@, value2: self.value2@ }
    }
}

impl Clone for ValueDiff {
    fn clone(&self) -> (r: Self)
        ensures
            r.deep_view() == self.deep_view(),
    {
        ValueDiff { key: self.key.clone(), value1: self.value1.clone(), value2: self.value2.clone() }
    }
}

impl ValueDiff {
    pub fn new(key: String, value1: String, value2: String) -> (r: ValueDiff)
        ensures
            r.deep_view() == (ValueDiffV { key: key@, value1: value1@, value2: value2@ }),
    {
        ValueDiff { key, value1, value2 }
    }
}

/// Mathematical image of an `ArrayDiff`.
pub struct ArrayDiffV {
    pub key: Seq<char>,
    pub descriptor: ArrayDiffDesc,
    pub value: Seq<char>,
}

/// One multiset-membership fact about a compared array pair.
#[derive(Debug, PartialEq)]
pub struct ArrayDiff {
    pub key: String,
    pub descriptor: ArrayDiffDesc,
    pub value: String,
}

impl DeepView for ArrayDiff {
    type V = ArrayDiffV;

    open spec fn deep_view(&self) -> ArrayDiffV {
        ArrayDiffV { key: self.key@, descriptor: self.descriptor, value: self.value@ }
    }
}

impl Clone for ArrayDiff {
    fn clone(&self) -> (r: Self)
        ensures
            r.deep_view() == self.deep_view(),
    {
        ArrayDiff { key: self.key.clone(), descriptor: self.descriptor, value: self.value.clone() }
    }
}

impl ArrayDiff {
    pub fn new(key: String, descriptor: ArrayDiffDesc, value: String) -> (r: ArrayDiff)
        ensures
            r.deep_view() == (ArrayDiffV { key: key@, descriptor: descriptor, value: value@ }),
    {
        ArrayDiff { key, descriptor, value }
    }
}

} // verus!
