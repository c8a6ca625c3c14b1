//! The collaborator interface model.
//!
//! The native resource-conversion service is consumed behind a narrow
//! boundary: a version selector, a taxonomy of named error values, and the
//! validation that every resource type code must pass before a call may
//! cross into the collaborator. The conversion calls themselves live
//! outside this library.

use vstd::prelude::*;
use vstd::string::StringSliceAdditionalSpecFns;

verus! {

/// A supported format-family version.
#[derive(Debug, Clone, Copy)]
pub enum WoaVersion {
    HM2016,
    HM2,
    HM3,
}

/// The named error values of the collaborator boundary, each distinct so
/// that callers can branch without string matching.
#[derive(Debug, Clone, PartialEq, Eq)]
pub enum ResourceLibError {
    GetSupportedResourceTypes,
    InvalidResourceType(String),
    InvalidPath(String, String),
    NullPointer(String),
    ConversionFailed(String),
    ConverterFunctionError(String),
    GeneratorFunctionError(String),
    UnknownWoaVersion,
    IoError(String),
    Utf8Error(String),
    SerdeError(String),
}

/// A valid resource type code: exactly four bytes, none of them zero, so
/// it can cross the native boundary as a C string.
pub open spec fn valid_resource_type(code: Seq<u8>) -> bool {
    code.len() == 4 && forall|k: int| 0 <= k < code.len() ==> code[k] != 0
}

/// Validates a resource type code before any call crosses into the
/// collaborator: returns the code when it is exactly four non-zero bytes,
/// and the invalid-type error naming the rejected code otherwise.
pub fn prepare_resource_type(resource_type: &str) -> (r: Result<String, ResourceLibError>)
    ensures
        match r {
            Ok(c) => valid_resource_type(resource_type.spec_bytes()) && c@ == resource_type@,
            Err(e) => !valid_resource_type(resource_type.spec_bytes()) && (e matches
                ResourceLibError::InvalidResourceType(t) && t@ == resource_type@),
        },
{
    let bytes = resource_type.as_bytes();
    if bytes.len() != 4 {
        return Err(ResourceLibError::InvalidResourceType(resource_type.to_owned()));
    }
    let mut k: usize = 0;
    while k < bytes.len()
        invariant
            k <= bytes@.len(),
            bytes@ == resource_type.spec_bytes(),
            forall|j: int| 0 <= j < k ==> bytes@[j] != 0,
        decreases bytes@.len() - k,
    {
        if bytes[k] == 0 {
            return Err(ResourceLibError::InvalidResourceType(resource_type.to_owned()));
        }
        k = k + 1;
    }
    Ok(resource_type.to_owned())
}

} // verus!

verus! {

/// A byte sequence free of zero bytes, so it can cross the native
/// boundary as a C string.
pub open spec fn nul_free(bytes: Seq<u8>) -> bool {
    forall|k: int| 0 <= k < bytes.len() ==> bytes[k] != 0
}

/// Validates a path parameter before it crosses into the collaborator.
/// The caller reports whether the path exists on disk; a path that must
/// exist but does not is rejected, as is one that holds a zero byte and so
/// cannot become a C string.
pub fn prepare_path_parameter(path: &str, path_exists: bool, must_exist: bool) -> (r: Result<
    String,
    ResourceLibError,
>)
    ensures
        r is Ok <==> ((path_exists || !must_exist) && nul_free(path.spec_bytes())),
        r matches Ok(c) ==> c@ == path@,
        must_exist && !path_exists ==> (r matches Err(e) && (e matches
            ResourceLibError::InvalidPath(p, m) && p@ == path@ && m@ == "Path does not exist"@)),
        (path_exists || !must_exist) && !nul_free(path.spec_bytes()) ==> (r matches Err(e) && (e
            matches ResourceLibError::InvalidPath(p, m) && p@ == path@ && m@
            == "cannot convert to CString"@)),
{
    if must_exist && !path_exists {
        return Err(
            ResourceLibError::InvalidPath(path.to_owned(), "Path does not exist".to_owned()),
        );
    }
    let bytes = path.as_bytes();
    let mut k: usize = 0;
    while k < bytes.len()
        invariant
            k <= bytes@.len(),
            bytes@ == path.spec_bytes(),
            path_exists || !must_exist,
            forall|j: int| 0 <= j < k ==> bytes@[j] != 0,
        decreases bytes@.len() - k,
    {
        if bytes[k] == 0 {
            return Err(
                ResourceLibError::InvalidPath(
                    path.to_owned(),
                    "cannot convert to CString".to_owned(),
                ),
            );
        }
        k = k + 1;
    }
    Ok(path.to_owned())
}

} // verus!
