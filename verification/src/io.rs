//! Choosing the download folder: an explicit path wins; otherwise a
//! `garfield` directory under the user's pictures, documents or home
//! directory.

use vstd::prelude::*;

verus! {

use vstd::string::*;

/// Relies on `dirs_next::picture_dir`: the user's pictures directory,
/// when the platform reports one.
#[verifier::external_body]
fn user_picture_dir() -> (r: Option<String>) {
    dirs_next::picture_dir().map(|p| p.to_string_lossy().into_owned())
}

/// Relies on `dirs_next::document_dir`: the user's documents
/// directory, when the platform reports one.
#[verifier::external_body]
fn user_document_dir() -> (r: Option<String>) {
    dirs_next::document_dir().map(|p| p.to_string_lossy().into_owned())
}

/// Relies on `dirs_next::home_dir`: the user's home directory, when
/// the platform reports one.
#[verifier::external_body]
fn user_home_dir() -> (r: Option<String>) {
    dirs_next::home_dir().map(|p| p.to_string_lossy().into_owned())
}

/// The folder images are saved into: the given folder when one was
/// named; otherwise a `garfield` directory under the first generic
/// parent the platform offers; an error when it offers none.
pub fn get_folder_path(folder: Option<&str>) -> (r: Result<String, String>)
    ensures
        folder matches Some(f) ==> r matches Ok(p) && p@ == f@,
        folder is None ==> (r matches Ok(p) ==> exists|base: Seq<char>| p@ == base + "/garfield"@),
        folder is None ==> (r matches Err(m) ==> m@
            == "Cannot automatically find appropriate folder location. Please enter folder manually"@),
{
    match folder {
        Some(f) => Ok(f.to_owned()),
        None => {
            let parent = match user_picture_dir() {
                Some(p) => Some(p),
                None => match user_document_dir() {
                    Some(p) => Some(p),
                    None => user_home_dir(),
                },
            };
            match parent {
                Some(p) => {
                    let ghost base = p@;
                    let joined = p.concat("/garfield");
                    proof {
                        assert(joined@ == base + "/garfield"@);
                    }
                    Ok(joined)
                },
                None => Err(
                    "Cannot automatically find appropriate folder location. Please enter folder manually".to_owned(),
                ),
            }
        },
    }
}

} // verus!
