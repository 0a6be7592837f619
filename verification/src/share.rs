use vstd::prelude::*;
use vstd::utf8::{decode_utf8, encode_utf8, encode_utf8_decode_utf8, encode_utf8_valid_utf8, valid_utf8};
use crate::codec::utf8_decode;
use crate::config::{imported, lemma_first_index, Config, ConfigEntry};
use crate::json::{
    field_lookup, fields_view, found_string, json_field, json_field_of, json_objects, json_objects_text, kv_view,
    last_object, last_value, members_view,
};
use crate::text::{copy_str, opt_view, str_eq};

verus! {

// A shared list travels as a JSON payload: the list's entry under `config`
// and its files, path to content hash, under `files`.

/// Why a shared list could not be read from its payload.
pub enum ShareError {
    /// The payload is no JSON.
    Payload,
    /// The payload has no `config` member.
    NoConfig,
    /// The `config` member is no list entry: an object holding the strings
    /// `URL`, `folder`, `tag` and `status`.
    BadConfig,
    /// The payload has no `files` member.
    NoFiles,
}

/// The members an entry is written with.
pub open spec fn entry_fields(e: ConfigEntry) -> Seq<(Seq<char>, Seq<char>)> {
    seq![("URL"@, e.url@), ("folder"@, e.folder@), ("tag"@, e.label@), ("status"@, e.status@)]
}

/// An entry's URL, folder, label and status.
pub open spec fn entry_view(e: ConfigEntry) -> (Seq<char>, Seq<char>, Seq<char>, Seq<char>) {
    (e.url@, e.folder@, e.label@, e.status@)
}

/// The members of a shared list's payload.
pub open spec fn share_members(e: ConfigEntry, files: Seq<(Seq<char>, Seq<char>)>) -> Seq<
    (Seq<char>, Seq<(Seq<char>, Seq<char>)>),
> {
    seq![("config"@, entry_fields(e)), ("files"@, files)]
}

/// A field that an object's members hold as a string.
pub open spec fn string_field(fs: Seq<(Seq<char>, Option<Seq<char>>)>, f: Seq<char>) -> Option<Seq<char>> {
    match field_lookup(fs, f) {
        Some(Some(s)) => Some(s),
        _ => None,
    }
}

/// The entry an object's members describe, where they hold the four
/// fields as strings (other members are ignored).
pub open spec fn entry_of(fs: Seq<(Seq<char>, Option<Seq<char>>)>) -> Option<(Seq<char>, Seq<char>, Seq<char>, Seq<char>)> {
    match (string_field(fs, "URL"@), string_field(fs, "folder"@), string_field(fs, "tag"@), string_field(fs, "status"@)) {
        (Some(u), Some(f), Some(t), Some(s)) => Some((u, f, t, s)),
        _ => None,
    }
}

/// The entry a payload shares, or why there is none.
pub open spec fn spec_shared_entry(payload: Seq<u8>) -> Result<(Seq<char>, Seq<char>, Seq<char>, Seq<char>), ShareError> {
    if !valid_utf8(payload) {
        Err(ShareError::Payload)
    } else {
        match json_field_of(decode_utf8(payload), "config"@) {
            None => Err(ShareError::Payload),
            Some(None) => Err(ShareError::NoConfig),
            Some(Some(None)) => Err(ShareError::BadConfig),
            Some(Some(Some(fs))) => match entry_of(fs) {
                Some(e) => Ok(e),
                None => Err(ShareError::BadConfig),
            },
        }
    }
}

/// The files of a `files` object: each path with its hash (empty where the
/// hash is no string).
pub open spec fn file_pairs(fs: Seq<(Seq<char>, Option<Seq<char>>)>) -> Seq<(Seq<char>, Seq<char>)> {
    fs.map_values(
        |p: (Seq<char>, Option<Seq<char>>)|
            (
                p.0,
                match p.1 {
                    Some(h) => h,
                    None => Seq::<char>::empty(),
                },
            ),
    )
}

/// The files a payload shares (none where `files` is no object), or why
/// they cannot be read.
pub open spec fn spec_shared_files(payload: Seq<u8>) -> Result<Seq<(Seq<char>, Seq<char>)>, ShareError> {
    if !valid_utf8(payload) {
        Err(ShareError::Payload)
    } else {
        match json_field_of(decode_utf8(payload), "files"@) {
            None => Err(ShareError::Payload),
            Some(None) => Err(ShareError::NoFiles),
            Some(Some(None)) => Ok(Seq::empty()),
            Some(Some(Some(fs))) => Ok(file_pairs(fs)),
        }
    }
}

proof fn lemma_file_pairs_lookup(fs: Seq<(Seq<char>, Option<Seq<char>>)>, p: Seq<char>)
    ensures
        last_value(file_pairs(fs), p) == match field_lookup(fs, p) {
            Some(Some(h)) => Some(h),
            Some(None) => Some(Seq::<char>::empty()),
            None => None::<Seq<char>>,
        },
    decreases fs.len(),
{
    if fs.len() > 0 {
        assert(file_pairs(fs).drop_last() =~= file_pairs(fs.drop_last()));
        lemma_file_pairs_lookup(fs.drop_last(), p);
    }
}

/// The value a field of an object's members holds as a string.
fn string_field_of(fs: &Vec<(String, Option<String>)>, f: &str) -> (r: Option<String>)
    ensures
        opt_view(r) == string_field(fields_view(fs@), f@),
{
    let ghost fv = fields_view(fs@);
    let mut i = fs.len();
    assert(fv.take(i as int) =~= fv);
    while i > 0
        invariant
            i <= fs@.len(),
            fv == fields_view(fs@),
            field_lookup(fv.take(i as int), f@) == field_lookup(fv, f@),
        decreases i,
    {
        let ghost t = fv.take(i as int);
        assert(t.drop_last() =~= fv.take(i - 1));
        assert(t.last() == fv[i - 1]);
        i = i - 1;
        if str_eq(fs[i].0.as_str(), f) {
            return match &fs[i].1 {
                Some(s) => Some(copy_str(s.as_str())),
                None => None,
            };
        }
    }
    assert(fv.take(0) =~= Seq::<(Seq<char>, Option<Seq<char>>)>::empty());
    None
}

/// The payload of a shared list: its entry under `config` and its files
/// (path and content hash) under `files`. It reads back: the entry comes
/// back, and each path finds the hash last given for it.
pub fn share_payload(entry: &ConfigEntry, files: &Vec<(String, String)>) -> (r: String)
    ensures
        r@ == json_objects_text(share_members(*entry, files@.map_values(|p: (String, String)| kv_view(p)))),
        spec_shared_entry(encode_utf8(r@)) == Ok::<(Seq<char>, Seq<char>, Seq<char>, Seq<char>), ShareError>(
            entry_view(*entry),
        ),
        spec_shared_files(encode_utf8(r@)) matches Ok(fs) && forall|p: Seq<char>|
            #[trigger] last_value(fs, p) == last_value(files@.map_values(|q: (String, String)| kv_view(q)), p),
{
    proof {
        reveal_strlit("URL");
        reveal_strlit("folder");
        reveal_strlit("tag");
        reveal_strlit("status");
        reveal_strlit("config");
        reveal_strlit("files");
    }
    let mut fields: Vec<(String, String)> = Vec::new();
    fields.push((copy_str("URL"), copy_str(entry.url.as_str())));
    fields.push((copy_str("folder"), copy_str(entry.folder.as_str())));
    fields.push((copy_str("tag"), copy_str(entry.label.as_str())));
    fields.push((copy_str("status"), copy_str(entry.status.as_str())));
    let mut listed: Vec<(String, String)> = Vec::new();
    let n = files.len();
    for i in 0..n
        invariant
            n == files@.len(),
            listed@.map_values(|p: (String, String)| kv_view(p)) =~= files@.map_values(
                |p: (String, String)| kv_view(p),
            ).take(i as int),
    {
        let pair = (copy_str(files[i].0.as_str()), copy_str(files[i].1.as_str()));
        let ghost before = listed@;
        listed.push(pair);
        assert(listed@ =~= before.push(pair));
        proof {
            let fv = files@.map_values(|p: (String, String)| kv_view(p));
            assert(kv_view(pair) == fv[i as int]);
            assert(fv.take(i + 1) =~= fv.take(i as int).push(fv[i as int]));
            assert(listed@.map_values(|p: (String, String)| kv_view(p)) =~= before.map_values(
                |p: (String, String)| kv_view(p),
            ).push(kv_view(pair)));
        }
    }
    let ghost fv = files@.map_values(|p: (String, String)| kv_view(p));
    assert(fv.take(n as int) =~= fv);
    let mut members: Vec<(String, Vec<(String, String)>)> = Vec::new();
    members.push((copy_str("config"), fields));
    members.push((copy_str("files"), listed));
    let ghost ev = entry_fields(*entry);
    assert(members_view(members@) =~= share_members(*entry, fv)) by {
        assert(members@[0].1@.map_values(|p: (String, String)| kv_view(p)) =~= ev);
        assert(members@[1].1@.map_values(|p: (String, String)| kv_view(p)) =~= fv);
    }
    let r = json_objects(&members);
    proof {
        let ms = share_members(*entry, fv);
        broadcast use {encode_utf8_decode_utf8, encode_utf8_valid_utf8};
        assert(decode_utf8(encode_utf8(r@)) == r@);
        assert(valid_utf8(encode_utf8(r@)));
        assert("config"@ != "files"@) by {
            assert("config"@[0] != "files"@[0]);
        }
        reveal_with_fuel(last_object, 3);
        assert(last_object(ms, "config"@) == Some(ev));
        assert(last_object(ms, "files"@) == Some(fv));
        let cfg = json_field_of(r@, "config"@);
        let fls = json_field_of(r@, "files"@);
        assert(cfg matches Some(Some(Some(_))));
        assert(fls matches Some(Some(Some(_))));
        let fs = cfg.unwrap().unwrap().unwrap();
        reveal_with_fuel(last_value, 5);
        assert(field_lookup(fs, "URL"@) == found_string(last_value(ev, "URL"@)));
        assert(field_lookup(fs, "folder"@) == found_string(last_value(ev, "folder"@)));
        assert(field_lookup(fs, "tag"@) == found_string(last_value(ev, "tag"@)));
        assert(field_lookup(fs, "status"@) == found_string(last_value(ev, "status"@)));
        assert("status"@[0] != "tag"@[0] && "status"@[0] != "folder"@[0] && "status"@[0] != "URL"@[0]);
        assert("tag"@[0] != "folder"@[0] && "tag"@[0] != "URL"@[0] && "folder"@[0] != "URL"@[0]);
        assert(last_value(ev, "status"@) == Some(entry.status@));
        assert(last_value(ev, "tag"@) == Some(entry.label@));
        assert(last_value(ev, "folder"@) == Some(entry.folder@));
        assert(last_value(ev, "URL"@) == Some(entry.url@));
        let gs = fls.unwrap().unwrap().unwrap();
        assert forall|p: Seq<char>| #[trigger] last_value(file_pairs(gs), p) == last_value(fv, p) by {
            lemma_file_pairs_lookup(gs, p);
            assert(field_lookup(gs, p) == found_string(last_value(fv, p)));
        }
    }
    r
}

/// Sharing a list and taking it in again lists it under its folder: where
/// a payload reads back as an entry (as every payload `share_payload`
/// writes does) and that entry is taken in, the folder is a title whose
/// entry is the shared one; it was appended at the end only if it was not
/// a title yet, and no other list changed.
pub proof fn law_share_then_import(payload: Seq<u8>, shared: ConfigEntry, taken: ConfigEntry, before: Config, after: Config)
    requires
        before.wf(),
        spec_shared_entry(payload) == Ok::<(Seq<char>, Seq<char>, Seq<char>, Seq<char>), ShareError>(entry_view(shared)),
        entry_view(taken) == entry_view(shared),
        imported(before, taken, after),
    ensures
        after.index_of(shared.folder@) matches Some(k) && entry_view(after.entries@[k]) == entry_view(shared)
            && forall|j: int| 0 <= j < before.entries@.len() && j != k ==> #[trigger] after.entries@[j] == before.entries@[j],
        before.index_of(shared.folder@) is Some ==> after.titles@ == before.titles@,
        before.index_of(shared.folder@) is None ==> after.titles.deep_view() == before.titles.deep_view().push(shared.folder@),
{
    lemma_first_index(before.titles.deep_view(), shared.folder@);
    lemma_first_index(after.titles.deep_view(), shared.folder@);
    match before.index_of(shared.folder@) {
        Some(k) => {
            assert(after.titles.deep_view() =~= before.titles.deep_view());
        },
        None => {
            let t1 = after.titles.deep_view();
            assert(t1.drop_last() =~= before.titles.deep_view());
            assert(after.index_of(shared.folder@) == Some(before.titles.deep_view().len() as int));
        },
    }
}

/// The entry a shared list's payload carries (see `spec_shared_entry`).
pub fn shared_entry(payload: &[u8]) -> (r: Result<ConfigEntry, ShareError>)
    ensures
        match spec_shared_entry(payload@) {
            Ok(t) => r matches Ok(e) && entry_view(e) == t,
            Err(x) => r matches Err(y) && y == x,
        },
{
    let text = match utf8_decode(payload) {
        Some(t) => t,
        None => return Err(ShareError::Payload),
    };
    match json_field(text.as_str(), "config") {
        None => Err(ShareError::Payload),
        Some(None) => Err(ShareError::NoConfig),
        Some(Some(None)) => Err(ShareError::BadConfig),
        Some(Some(Some(fs))) => {
            let url = string_field_of(&fs, "URL");
            let folder = string_field_of(&fs, "folder");
            let label = string_field_of(&fs, "tag");
            let status = string_field_of(&fs, "status");
            match (url, folder, label, status) {
                (Some(url), Some(folder), Some(label), Some(status)) => Ok(ConfigEntry { url, folder, label, status }),
                _ => Err(ShareError::BadConfig),
            }
        },
    }
}

/// The files a shared list's payload carries (see `spec_shared_files`).
pub fn shared_files(payload: &[u8]) -> (r: Result<Vec<(String, String)>, ShareError>)
    ensures
        match spec_shared_files(payload@) {
            Ok(fs) => r matches Ok(v) && v@.map_values(|p: (String, String)| kv_view(p)) == fs,
            Err(x) => r matches Err(y) && y == x,
        },
{
    let text = match utf8_decode(payload) {
        Some(t) => t,
        None => return Err(ShareError::Payload),
    };
    match json_field(text.as_str(), "files") {
        None => Err(ShareError::Payload),
        Some(None) => Err(ShareError::NoFiles),
        Some(Some(None)) => Ok(Vec::new()),
        Some(Some(Some(fs))) => {
            let ghost want = file_pairs(fields_view(fs@));
            let mut out: Vec<(String, String)> = Vec::new();
            let n = fs.len();
            for i in 0..n
                invariant
                    n == fs@.len(),
                    want == file_pairs(fields_view(fs@)),
                    out@.map_values(|p: (String, String)| kv_view(p)) =~= want.take(i as int),
            {
                let hash = match &fs[i].1 {
                    Some(h) => copy_str(h.as_str()),
                    None => String::new(),
                };
                let pair = (copy_str(fs[i].0.as_str()), hash);
                let ghost before = out@;
                out.push(pair);
                assert(out@ =~= before.push(pair));
                assert(want.take(i + 1) =~= want.take(i as int).push(want[i as int]));
            }
            assert(want.take(n as int) =~= want);
            Ok(out)
        },
    }
}

} // verus!
