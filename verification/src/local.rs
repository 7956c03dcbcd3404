//! The page store in a directory: where its files lie, what each
//! operation asks of the file system, and what the files that were read
//! mean.
//!
//! ```text
//! <dir>/pages/<hex>    one file for each page, raw bytes
//! <dir>/root           the root, as hexadecimal text
//! <dir>/refs/<name>    one file for each named root, as hexadecimal text
//! ```
//!
//! The store touches no file itself. Each operation is an action for the
//! caller to carry out; for an action that reads, a second function takes
//! what was read and gives the operation's result.

use vstd::prelude::*;
use vstd::string::StrSliceExecFns;
use crate::cid::Cid;
use crate::cid::Page;
use crate::cid::PageStoreError;
use crate::names::insert_named;
use crate::names::sanitize;
use crate::text::joined;
use crate::text::owned;

verus! {

/// The path of an entry of a directory: the directory's path, a `/` unless
/// it ends in one, and the entry's name; the name alone in the empty path.
pub open spec fn child_path(dir: Seq<char>, name: Seq<char>) -> Seq<char> {
    if dir.len() == 0 {
        name
    } else if dir.last() == '/' {
        dir + name
    } else {
        dir + seq!['/'] + name
    }
}

/// The path of an entry of a directory.
pub fn child(dir: &str, name: &str) -> (path: String)
    ensures
        path@ == child_path(dir@, name@),
{
    let len = dir.unicode_len();
    if len == 0 {
        return owned(name);
    }
    if dir.get_char(len - 1) == '/' {
        return joined(dir, name);
    }
    let with_slash = joined(dir, "/");
    proof {
        reveal_strlit("/");
        assert("/"@ =~= seq!['/']);
    }
    joined(with_slash.as_str(), name)
}

/// What a store on disk asks of the file system. The caller carries the
/// action out and hands back what came of it.
#[derive(Debug)]
pub enum FileAction {
    /// Make sure the directory exists, with the directories above it.
    CreateDir { path: String },
    /// Read the file, which may not exist.
    Read { path: String },
    /// Create the file with these bytes, unless it exists.
    WriteIfAbsent { path: String, contents: Vec<u8> },
    /// Make sure the directory exists, then write the file with this text
    /// in place of what it held.
    WriteText { dir: String, path: String, text: String },
    /// Remove the file if it exists, and say whether it did.
    Remove { path: String },
    /// List the files of the directory, each with its name and its text; a
    /// directory that does not exist has none.
    List { dir: String },
}

/// What a file holds: the bytes of a page, or the text of a root.
pub enum FileContents {
    Bytes(Seq<u8>),
    Text(Seq<char>),
}

/// The files after an action was carried out on them, by their paths:
/// what every action means. Reading, listing and making a directory leave
/// the files alone.
pub open spec fn performed(
    files: Map<Seq<char>, FileContents>,
    action: FileAction,
) -> Map<Seq<char>, FileContents> {
    match action {
        FileAction::WriteIfAbsent { path, contents } => if files.contains_key(path@) {
            files
        } else {
            files.insert(path@, FileContents::Bytes(contents@))
        },
        FileAction::WriteText { dir, path, text } => files.insert(path@, FileContents::Text(text@)),
        FileAction::Remove { path } => files.remove(path@),
        _ => files,
    }
}

/// A page store in a directory.
#[derive(Debug)]
pub struct LocalPageStore {
    /// The directory's path.
    pub dir: String,
}

impl LocalPageStore {
    /// The store in the directory `dir`.
    pub fn new(dir: &str) -> (store: LocalPageStore)
        ensures
            store.dir@ == dir@,
    {
        LocalPageStore { dir: owned(dir) }
    }

    /// The path of the file of a page.
    pub open spec fn page_file(&self, cid: Cid) -> Seq<char> {
        child_path(child_path(self.dir@, "pages"@), crate::cid::hex_text(cid@))
    }

    /// The path of the file of a named root.
    pub open spec fn ref_file(&self, name: Seq<char>) -> Seq<char> {
        child_path(child_path(self.dir@, "refs"@), crate::names::sanitized(name))
    }

    /// Opening the store: the directory of the pages is made sure of.
    pub fn open_action(&self) -> (action: FileAction)
        ensures
            action matches FileAction::CreateDir { path } && path@ == child_path(
                self.dir@,
                "pages"@,
            ),
    {
        FileAction::CreateDir { path: self.pages_dir() }
    }

    /// Fetching a page: its file is read. What was read goes to
    /// `page_from_file`.
    pub fn get_action(&self, cid: &Cid) -> (action: FileAction)
        ensures
            action matches FileAction::Read { path } && path@ == self.page_file(*cid),
    {
        FileAction::Read { path: self.page_path(cid) }
    }

    /// Storing a page: its identifier is that of its bytes, and its file is
    /// written unless it exists.
    pub fn put_action(&self, page: &Page) -> (res: (Cid, FileAction))
        ensures
            res.0 == Cid::of(page.data@),
            res.1 matches FileAction::WriteIfAbsent { path, contents } && path@ == self.page_file(
                res.0,
            ) && contents@ == page.data@,
    {
        let cid = Cid::from_bytes(page.data.as_slice());
        let path = self.page_path(&cid);
        (cid, FileAction::WriteIfAbsent { path, contents: crate::bytes::copy_bytes(page.data.as_slice()) })
    }

    /// Setting the root: the root file is written with the identifier in
    /// hexadecimal.
    pub fn update_root_action(&self, new_root: Cid) -> (action: FileAction)
        ensures
            action matches FileAction::WriteText { dir, path, text } && dir@ == self.dir@ && path@
                == child_path(self.dir@, "root"@) && text@ == crate::cid::hex_text(new_root@),
    {
        FileAction::WriteText {
            dir: self.dir.clone(),
            path: self.root_path(),
            text: new_root.to_hex(),
        }
    }

    /// Asking for the root: the root file is read. What was read goes to
    /// `read_root_file`.
    pub fn current_root_action(&self) -> (action: FileAction)
        ensures
            action matches FileAction::Read { path } && path@ == child_path(self.dir@, "root"@),
    {
        FileAction::Read { path: self.root_path() }
    }

    /// Saving a named root: its file in the directory of the named roots is
    /// written with the identifier in hexadecimal.
    pub fn set_named_root_action(&self, name: &str, cid: Cid) -> (action: FileAction)
        ensures
            action matches FileAction::WriteText { dir, path, text } && dir@ == child_path(
                self.dir@,
                "refs"@,
            ) && path@ == self.ref_file(name@) && text@ == crate::cid::hex_text(cid@),
    {
        FileAction::WriteText {
            dir: self.refs_dir(),
            path: self.ref_path(name),
            text: cid.to_hex(),
        }
    }

    /// Looking a named root up: its file is read. What was read goes to
    /// `read_cid_file`.
    pub fn get_named_root_action(&self, name: &str) -> (action: FileAction)
        ensures
            action matches FileAction::Read { path } && path@ == self.ref_file(name@),
    {
        FileAction::Read { path: self.ref_path(name) }
    }

    /// Removing a named root: its file is removed, and the root was there
    /// if the file was.
    pub fn remove_named_root_action(&self, name: &str) -> (action: FileAction)
        ensures
            action matches FileAction::Remove { path } && path@ == self.ref_file(name@),
    {
        FileAction::Remove { path: self.ref_path(name) }
    }

    /// Listing the named roots: the directory of the named roots is listed.
    /// What was found goes to `named_roots_from_files`.
    pub fn list_named_roots_action(&self) -> (action: FileAction)
        ensures
            action matches FileAction::List { dir } && dir@ == child_path(self.dir@, "refs"@),
    {
        FileAction::List { dir: self.refs_dir() }
    }

    /// The directory of the pages.
    pub fn pages_dir(&self) -> (path: String)
        ensures
            path@ == child_path(self.dir@, "pages"@),
    {
        child(self.dir.as_str(), "pages")
    }

    /// The file of a page: its identifier in hexadecimal, in the directory
    /// of the pages.
    pub fn page_path(&self, cid: &Cid) -> (path: String)
        ensures
            path@ == self.page_file(*cid),
    {
        child(self.pages_dir().as_str(), cid.to_hex().as_str())
    }

    /// The file of the root.
    pub fn root_path(&self) -> (path: String)
        ensures
            path@ == child_path(self.dir@, "root"@),
    {
        child(self.dir.as_str(), "root")
    }

    /// The directory of the named roots.
    pub fn refs_dir(&self) -> (path: String)
        ensures
            path@ == child_path(self.dir@, "refs"@),
    {
        child(self.dir.as_str(), "refs")
    }

    /// The file of a named root: the name with `_` in place of every
    /// character that is no ASCII letter or digit, `-`, `_` or `.`, in the
    /// directory of the named roots.
    pub fn ref_path(&self, name: &str) -> (path: String)
        ensures
            path@ == self.ref_file(name@),
    {
        child(self.refs_dir().as_str(), sanitize(name).as_str())
    }

    /// The identifier that a root file or named-root file holds. A file
    /// that does not exist holds none; one that exists must hold 64
    /// hexadecimal digits, white space around them aside.
    pub fn read_cid_file(contents: Option<&str>) -> (res: Result<Option<Cid>, PageStoreError>)
        ensures
            match contents {
                None => res == Ok::<Option<Cid>, PageStoreError>(None),
                Some(text) => {
                    let digits = crate::cid::white_space_trimmed(text@);
                    &&& res is Ok <==> crate::cid::is_hex(digits) && digits.len() == 64
                    &&& res matches Ok(found) ==> found matches Some(cid) && cid@
                        == crate::cid::hex_bytes(digits)
                    &&& res matches Err(e) ==> e is Storage
                },
            },
    {
        match contents {
            None => Ok(None),
            Some(text) => match Cid::from_hex(text) {
                Ok(cid) => Ok(Some(cid)),
                Err(e) => Err(e),
            },
        }
    }

    /// The root that the root file holds: none where the file does not
    /// exist or holds the null identifier.
    pub fn read_root_file(contents: Option<&str>) -> (res: Result<Option<Cid>, PageStoreError>)
        ensures
            match contents {
                None => res == Ok::<Option<Cid>, PageStoreError>(None),
                Some(text) => {
                    let digits = crate::cid::white_space_trimmed(text@);
                    &&& res is Ok <==> crate::cid::is_hex(digits) && digits.len() == 64
                    &&& res matches Ok(Some(cid)) ==> cid@ == crate::cid::hex_bytes(digits)
                        && !cid.spec_is_null()
                    &&& res matches Ok(None) ==> forall|i: int|
                        0 <= i < 32 ==> #[trigger] crate::cid::hex_bytes(digits)[i] == 0
                    &&& res matches Err(e) ==> e is Storage
                },
            },
    {
        match Self::read_cid_file(contents) {
            Ok(Some(cid)) => if cid.is_null() {
                Ok(None)
            } else {
                Ok(Some(cid))
            },
            Ok(None) => Ok(None),
            Err(e) => Err(e),
        }
    }

    /// The page that a page file holds. A file that does not exist means
    /// that the page is not found; bytes whose digest is not the identifier
    /// asked for are a storage error and are not returned.
    pub fn page_from_file(cid: &Cid, contents: Option<Vec<u8>>) -> (res: Result<
        Page,
        PageStoreError,
    >)
        ensures
            match contents {
                None => res matches Err(e) && e == PageStoreError::NotFound(*cid),
                Some(data) => {
                    &&& res is Ok <==> *cid == Cid::of(data@)
                    &&& res matches Ok(page) ==> page.data == data
                    &&& res matches Err(e) ==> e is Storage
                },
            },
    {
        match contents {
            None => Err(PageStoreError::NotFound(*cid)),
            Some(data) => crate::objstore::check_fetched(cid, data),
        }
    }

    /// The named roots that the files of the directory of named roots
    /// hold, in the order of their names. `files` has each file's name and
    /// contents. Fails where a file does not hold an identifier.
    pub fn named_roots_from_files(files: &Vec<(String, String)>) -> (res: Result<
        Vec<(String, Cid)>,
        PageStoreError,
    >)
        ensures
            res is Ok <==> forall|i: int|
                0 <= i < files@.len() ==> crate::cid::is_hex(
                    crate::cid::white_space_trimmed((#[trigger] files@[i]).1@),
                ) && crate::cid::white_space_trimmed(files@[i].1@).len() == 64,
            res matches Ok(roots) ==> {
                &&& crate::names::names_ascend(roots@)
                &&& forall|i: int|
                    0 <= i < roots@.len() ==> exists|k: int|
                        0 <= k < files@.len() && (#[trigger] files@[k]).0@ == (#[trigger] roots@[i]).0@
                            && roots@[i].1@ == crate::cid::hex_bytes(
                            crate::cid::white_space_trimmed(files@[k].1@),
                        )
                &&& forall|k: int|
                    0 <= k < files@.len() ==> crate::names::named_lookup(
                        roots@,
                        (#[trigger] files@[k]).0@,
                    ) is Some
            },
            res matches Err(e) ==> e is Storage,
    {
        let mut roots: Vec<(String, Cid)> = Vec::new();
        let mut i: usize = 0;
        while i < files.len()
            invariant
                i <= files@.len(),
                crate::names::names_ascend(roots@),
                forall|k: int|
                    0 <= k < i ==> crate::cid::is_hex(
                        crate::cid::white_space_trimmed((#[trigger] files@[k]).1@),
                    ) && crate::cid::white_space_trimmed(files@[k].1@).len() == 64,
                forall|name: Seq<char>|
                    #![trigger crate::names::named_lookup(roots@, name)]
                    crate::names::named_lookup(roots@, name) is Some ==> exists|k: int|
                        0 <= k < i && (#[trigger] files@[k]).0@ == name
                            && crate::names::named_lookup(roots@, name)->0@
                            == crate::cid::hex_bytes(crate::cid::white_space_trimmed(files@[k].1@)),
                forall|k: int|
                    0 <= k < i ==> crate::names::named_lookup(roots@, (#[trigger] files@[k]).0@)
                        is Some,
            decreases files@.len() - i,
        {
            let cid = match Cid::from_hex(files[i].1.as_str()) {
                Ok(cid) => cid,
                Err(e) => {
                    return Err(e);
                },
            };
            let ghost before = roots@;
            insert_named(&mut roots, files[i].0.clone(), cid);
            proof {
                assert forall|name: Seq<char>|
                    #![trigger crate::names::named_lookup(roots@, name)]
                    crate::names::named_lookup(roots@, name) is Some implies exists|k: int|
                    0 <= k < i + 1 && (#[trigger] files@[k]).0@ == name
                        && crate::names::named_lookup(roots@, name)->0@ == crate::cid::hex_bytes(
                        crate::cid::white_space_trimmed(files@[k].1@),
                    ) by {
                    if name == files@[i as int].0@ {
                        assert(files@[i as int].0@ == name);
                    } else {
                        assert(crate::names::named_lookup(before, name) == crate::names::named_lookup(roots@, name));
                        let k = choose|k: int|
                            0 <= k < i && (#[trigger] files@[k]).0@ == name
                                && crate::names::named_lookup(before, name)->0@
                                == crate::cid::hex_bytes(
                                crate::cid::white_space_trimmed(files@[k].1@),
                            );
                        assert(files@[k].0@ == name);
                    }
                }
                assert forall|k: int| 0 <= k < i + 1 implies crate::names::named_lookup(
                    roots@,
                    (#[trigger] files@[k]).0@,
                ) is Some by {
                    if k < i {
                        assert(crate::names::named_lookup(before, files@[k].0@) is Some);
                    }
                }
            }
            i += 1;
        }
        proof {
            assert forall|j: int| 0 <= j < roots@.len() implies exists|k: int|
                0 <= k < files@.len() && (#[trigger] files@[k]).0@ == (#[trigger] roots@[j]).0@
                    && roots@[j].1@ == crate::cid::hex_bytes(
                    crate::cid::white_space_trimmed(files@[k].1@),
                ) by {
                crate::names::lemma_lookup_finds(roots@, j);
                let name = roots@[j].0@;
                assert(crate::names::named_lookup(roots@, name) == Some(roots@[j].1));
                let k = choose|k: int|
                    0 <= k < i && (#[trigger] files@[k]).0@ == name && roots@[j].1@
                        == crate::cid::hex_bytes(crate::cid::white_space_trimmed(files@[k].1@));
                assert(files@[k].0@ == roots@[j].0@);
            }
        }
        Ok(roots)
    }

    /// Whether the text of a file is an identifier.
    pub open spec fn holds_identifier(text: Seq<char>) -> bool {
        crate::cid::is_hex(crate::cid::white_space_trimmed(text))
            && crate::cid::white_space_trimmed(text).len() == 64
    }

    /// The named roots that the files of the directory of named roots
    /// hold, in the order of their names, for a reader that passes over
    /// what it cannot read: a file that does not hold an identifier is
    /// left out, and every other file is listed.
    pub fn readable_named_roots(files: &Vec<(String, String)>) -> (roots: Vec<(String, Cid)>)
        ensures
            crate::names::names_ascend(roots@),
            forall|i: int|
                0 <= i < roots@.len() ==> exists|k: int|
                    0 <= k < files@.len() && (#[trigger] files@[k]).0@ == (#[trigger] roots@[i]).0@
                        && Self::holds_identifier(files@[k].1@) && roots@[i].1@
                        == crate::cid::hex_bytes(crate::cid::white_space_trimmed(files@[k].1@)),
            forall|k: int|
                0 <= k < files@.len() && Self::holds_identifier((#[trigger] files@[k]).1@)
                    ==> crate::names::named_lookup(roots@, files@[k].0@) is Some,
    {
        let mut roots: Vec<(String, Cid)> = Vec::new();
        let mut i: usize = 0;
        while i < files.len()
            invariant
                i <= files@.len(),
                crate::names::names_ascend(roots@),
                forall|name: Seq<char>|
                    #![trigger crate::names::named_lookup(roots@, name)]
                    crate::names::named_lookup(roots@, name) is Some ==> exists|k: int|
                        0 <= k < i && (#[trigger] files@[k]).0@ == name && Self::holds_identifier(
                            files@[k].1@,
                        ) && crate::names::named_lookup(roots@, name)->0@ == crate::cid::hex_bytes(
                            crate::cid::white_space_trimmed(files@[k].1@),
                        ),
                forall|k: int|
                    0 <= k < i && Self::holds_identifier((#[trigger] files@[k]).1@)
                        ==> crate::names::named_lookup(roots@, files@[k].0@) is Some,
            decreases files@.len() - i,
        {
            let ghost before = roots@;
            match Cid::from_hex(files[i].1.as_str()) {
                Ok(cid) => {
                    insert_named(&mut roots, files[i].0.clone(), cid);
                },
                Err(_) => {},
            }
            proof {
                assert forall|name: Seq<char>|
                    #![trigger crate::names::named_lookup(roots@, name)]
                    crate::names::named_lookup(roots@, name) is Some implies exists|k: int|
                    0 <= k < i + 1 && (#[trigger] files@[k]).0@ == name && Self::holds_identifier(
                        files@[k].1@,
                    ) && crate::names::named_lookup(roots@, name)->0@ == crate::cid::hex_bytes(
                        crate::cid::white_space_trimmed(files@[k].1@),
                    ) by {
                    if Self::holds_identifier(files@[i as int].1@) && name == files@[i as int].0@ {
                        assert(files@[i as int].0@ == name);
                    } else {
                        assert(crate::names::named_lookup(before, name)
                            == crate::names::named_lookup(roots@, name));
                        let k = choose|k: int|
                            0 <= k < i && (#[trigger] files@[k]).0@ == name
                                && Self::holds_identifier(files@[k].1@)
                                && crate::names::named_lookup(before, name)->0@
                                == crate::cid::hex_bytes(
                                crate::cid::white_space_trimmed(files@[k].1@),
                            );
                        assert(files@[k].0@ == name);
                    }
                }
                assert forall|k: int|
                    0 <= k < i + 1 && Self::holds_identifier(
                        (#[trigger] files@[k]).1@,
                    ) implies crate::names::named_lookup(roots@, files@[k].0@) is Some by {
                    if k < i {
                        assert(crate::names::named_lookup(before, files@[k].0@) is Some);
                    }
                }
            }
            i += 1;
        }
        proof {
            assert forall|j: int| 0 <= j < roots@.len() implies exists|k: int|
                0 <= k < files@.len() && (#[trigger] files@[k]).0@ == (#[trigger] roots@[j]).0@
                    && Self::holds_identifier(files@[k].1@) && roots@[j].1@
                    == crate::cid::hex_bytes(crate::cid::white_space_trimmed(files@[k].1@)) by {
                crate::names::lemma_lookup_finds(roots@, j);
                let name = roots@[j].0@;
                assert(crate::names::named_lookup(roots@, name) == Some(roots@[j].1));
                let k = choose|k: int|
                    0 <= k < i && (#[trigger] files@[k]).0@ == name && Self::holds_identifier(
                        files@[k].1@,
                    ) && roots@[j].1@ == crate::cid::hex_bytes(
                        crate::cid::white_space_trimmed(files@[k].1@),
                    );
                assert(files@[k].0@ == roots@[j].0@);
            }
        }
        roots
    }
}

/// Storing a page in a directory a second time changes no file: the
/// action that `put_action` gives for a page, carried out twice, leaves
/// the files as it leaves them when carried out once, and no file but the
/// page's own is touched at all.
pub proof fn law_local_put_is_idempotent(
    store: LocalPageStore,
    files: Map<Seq<char>, FileContents>,
    page: Seq<u8>,
    action: FileAction,
)
    requires
        action matches FileAction::WriteIfAbsent { path, contents } && path@ == store.page_file(
            Cid::of(page),
        ) && contents@ == page,
    ensures
        performed(performed(files, action), action) == performed(files, action),
        forall|path: Seq<char>|
            path != store.page_file(Cid::of(page)) ==> (#[trigger] performed(
                files,
                action,
            ).contains_key(path) == files.contains_key(path) && performed(files, action)[path]
                == files[path]),
{
}

/// The file of a page holds the page once it was stored, unless the file
/// was there before with other bytes: after the action that `put_action`
/// gives for a page, the page's file holds the page's bytes, which are
/// what `page_from_file` hands back for the page's identifier.
pub proof fn law_local_file_holds_what_was_put(
    store: LocalPageStore,
    files: Map<Seq<char>, FileContents>,
    page: Seq<u8>,
    action: FileAction,
)
    requires
        action matches FileAction::WriteIfAbsent { path, contents } && path@ == store.page_file(
            Cid::of(page),
        ) && contents@ == page,
        files.contains_key(store.page_file(Cid::of(page))) ==> files[store.page_file(
            Cid::of(page),
        )] == FileContents::Bytes(page),
    ensures
        performed(files, action).contains_key(store.page_file(Cid::of(page))),
        performed(files, action)[store.page_file(Cid::of(page))] == FileContents::Bytes(page),
{
}

/// The root file holds the root that was last set, and a named root's
/// file the root that was last saved under its name: after the action
/// that `update_root_action` or `set_named_root_action` gives, the file
/// holds the identifier's hexadecimal text.
pub proof fn law_local_file_holds_the_root(
    files: Map<Seq<char>, FileContents>,
    cid: Cid,
    action: FileAction,
)
    requires
        action matches FileAction::WriteText { dir, path, text } && text@ == crate::cid::hex_text(
            cid@,
        ),
    ensures
        performed(files, action)[action->WriteText_path@] == FileContents::Text(
            crate::cid::hex_text(cid@),
        ),
        crate::cid::is_hex(crate::cid::hex_text(cid@)),
        crate::cid::hex_bytes(crate::cid::hex_text(cid@)) == cid@,
{
    crate::cid::law_hex_round_trip(cid@);
}

} // verus!
