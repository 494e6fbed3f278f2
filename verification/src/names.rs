//! How documents are named on disk: one file per collection, named by the
//! collection's identifier, in a directory of their own, and a single file
//! for the environments.

use vstd::prelude::*;

verus! {

/// The ending that marks a file as a document: `.json`.
pub open spec fn document_suffix() -> Seq<char> {
    seq!['.', 'j', 's', 'o', 'n']
}

/// The name of the file that holds the collection with the given identifier.
pub open spec fn file_name_of(id: Seq<char>) -> Seq<char> {
    id + document_suffix()
}

/// Whether a file name is that of a document: something in front of a last
/// dot, and `json` behind it.
pub open spec fn names_a_document(name: Seq<char>) -> bool {
    name.len() > 5 && name.subrange(name.len() - 5, name.len() as int) == document_suffix()
}

/// The directory, below the data root, that holds the collections.
pub fn collections_dir_name() -> (name: &'static str)
    ensures
        name@ == "collections"@,
{
    "collections"
}

/// The file, directly below the data root, that holds the environments.
pub fn environments_file_name() -> (name: &'static str)
    ensures
        name@ == "environments.json"@,
{
    "environments.json"
}

/// Names the file for a collection.
pub fn collection_file_name(id: &str) -> (name: String)
    ensures
        name@ == file_name_of(id@),
{
    proof {
        reveal_strlit(".json");
        assert(".json"@ =~= document_suffix());
    }
    String::from_str(id).concat(".json")
}

/// Tells whether a directory entry is a document, going by its name.
pub fn is_document_file(name: &str) -> (is_document: bool)
    ensures
        is_document == names_a_document(name@),
{
    let n: usize = name.unicode_len();
    if n <= 5 {
        return false;
    }
    let start: usize = n - 5;
    let matches = name.get_char(start) == '.' && name.get_char(start + 1) == 'j' && name.get_char(
        start + 2,
    ) == 's' && name.get_char(start + 3) == 'o' && name.get_char(start + 4) == 'n';
    proof {
        let ending = name@.subrange(n - 5, n as int);
        if matches {
            assert(ending =~= document_suffix());
        } else {
            if ending == document_suffix() {
                assert(ending[0] == '.');
                assert(ending[1] == 'j');
                assert(ending[2] == 's');
                assert(ending[3] == 'o');
                assert(ending[4] == 'n');
            }
        }
    }
    matches
}

/// Different identifiers never share a file.
pub proof fn lemma_file_names_differ(first: Seq<char>, second: Seq<char>)
    ensures
        file_name_of(first) == file_name_of(second) <==> first == second,
{
    if file_name_of(first) == file_name_of(second) {
        assert(file_name_of(first).len() == first.len() + 5);
        assert(file_name_of(second).len() == second.len() + 5);
        assert forall|i: int| 0 <= i < first.len() implies first[i] == second[i] by {
            assert(file_name_of(first)[i] == first[i]);
            assert(file_name_of(second)[i] == second[i]);
        }
        assert(first =~= second);
    }
}

/// The file of a collection is a document, unless the identifier is empty.
pub proof fn lemma_collection_file_is_document(id: Seq<char>)
    ensures
        names_a_document(file_name_of(id)) <==> id.len() > 0,
{
    let name = file_name_of(id);
    assert(name.subrange(name.len() - 5, name.len() as int) =~= document_suffix());
}

} // verus!
