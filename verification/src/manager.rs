use vstd::prelude::*;
use crate::config::{
    field_or_empty, find_url, lemma_find_url, same_entry, spec_relay, spec_stream_date, spec_stream_num, spec_to_origin,
    CodeLists, Config, ConfigEntry,
};
use crate::crawl::{codec_for, tag_of, Crawl};
use crate::dates::{parse_ymd, valid_day, ymd_parsed};
use crate::json::{
    json_pointer_text, json_key_present, kv_view, last_value, member_removed, member_set, member_settable, plain_token,
    remove_member, set_member,
};
use crate::random::random_below;
use crate::lib_utils::spec_url_to_name;
use crate::text::{
    contains, copy_str, opt_view, push_char, push_str, replace, replace_str, split_pat,
    split_pat_str, starts_with, str_contains, str_eq,
};

verus! {

/// Manages the download lists.
pub struct Manager {
    pub config: Config,
}

/// Why a download could not start.
pub enum DownloadError {
    /// No list is fetched from the URL (or its folder is empty).
    UnknownUrl,
}

/// The value stored under a key in a list of key–value pairs (the first
/// one), or the empty text.
pub open spec fn assoc_get(list: Seq<(String, String)>, key: Seq<char>) -> Seq<char>
    decreases list.len(),
{
    if list.len() == 0 {
        Seq::empty()
    } else if list[0].0@ == key {
        list[0].1@
    } else {
        assoc_get(list.drop_first(), key)
    }
}

/// A list whose status is more than a day old (or unreadable) is refreshed.
pub open spec fn spec_needs_update(status: Seq<char>, today: int) -> bool {
    match ymd_parsed(status) {
        Some(d) => today - d > 1,
        None => true,
    }
}

/// The folder under `downloads` (a path of its own when absolute).
pub open spec fn folder_dir(folder: Seq<char>) -> Seq<char> {
    if starts_with(folder, "/"@) {
        folder
    } else {
        "downloads/"@ + folder
    }
}

/// The URL of one download: the placeholders filled in.
pub open spec fn filled_url(
    entries: Seq<ConfigEntry>,
    url: Seq<char>,
    num: Seq<char>,
    date: Seq<char>,
    today: int,
) -> Seq<char> {
    replace(replace(url, "@date"@, spec_to_origin(entries, date, url, today)), "@num"@, num)
}

/// `_` and the value when the URL has the placeholder, else nothing.
pub open spec fn suffix(url: Seq<char>, placeholder: Seq<char>, value: Seq<char>) -> Seq<char> {
    if contains(url, placeholder) {
        seq!['_'] + value
    } else {
        Seq::empty()
    }
}

/// Where one download is saved.
pub open spec fn job_path(dir: Seq<char>, url: Seq<char>, fetched: Seq<char>, num: Seq<char>, date: Seq<char>) -> Seq<char> {
    dir + "/"@ + spec_url_to_name(fetched) + suffix(url, "@num"@, num) + suffix(url, "@date"@, date)
        + ".txt"@
}

/// One download of a list is as `fetch` describes it.
pub open spec fn is_job(
    c: Crawl,
    entries: Seq<ConfigEntry>,
    rules: Option<Seq<char>>,
    dir: Seq<char>,
    url: Seq<char>,
    num: Seq<char>,
    date: Seq<char>,
    today: int,
) -> bool {
    let parts = split_pat(filled_url(entries, url, num, date, today), "@Post:"@);
    let fetched = parts[0];
    &&& c.spec_url() == fetched
    &&& c.spec_tag() == tag_of(fetched)
    &&& c.spec_codec() == codec_for(rules, tag_of(fetched))
    &&& c.spec_path() == job_path(dir, url, fetched, num, date)
    &&& c.spec_post() == (if contains(url, "@Post:"@) && parts.len() > 1 {
        Some(parts[1])
    } else {
        None
    })
}

impl Manager {
    pub fn new(config: Config) -> (m: Manager)
        ensures
            m.config == config,
    {
        Manager { config }
    }

    /// The value under a key, or the empty text.
    pub fn lookup(list: &Vec<(String, String)>, key: &str) -> (r: String)
        ensures
            r@ == assoc_get(list@, key@),
    {
        let n = list.len();
        assert(list@.skip(0) =~= list@);
        for i in 0..n
            invariant
                n == list@.len(),
                assoc_get(list@.skip(i as int), key@) == assoc_get(list@, key@),
        {
            proof {
                assert(list@.skip(i as int)[0] == list@[i as int]);
                assert(list@.skip(i as int).drop_first() =~= list@.skip(i + 1));
            }
            if str_eq(list[i].0.as_str(), key) {
                return copy_str(list[i].1.as_str());
            }
        }
        String::new()
    }

    /// Adds a list from its `title`, `URL`, `label` and `status` values; the
    /// list's folder is its title. A title already listed changes nothing,
    /// and the answer is `false`.
    pub fn add_config(&mut self, list_in: &Vec<(String, String)>) -> (added: bool)
        requires
            old(self).config.wf(),
        ensures
            final(self).config.wf(),
            added == (old(self).config.index_of(assoc_get(list_in@, "title"@)) is None),
            !added ==> final(self).config == old(self).config,
            added ==> list_added(old(self).config, final(self).config, list_in@),
    {
        proof {
            reveal_strlit("title");
            reveal_strlit("URL");
            reveal_strlit("label");
            reveal_strlit("status");
        }
        let title = Self::lookup(list_in, "title");
        let url = Self::lookup(list_in, "URL");
        let label = Self::lookup(list_in, "label");
        let status = Self::lookup(list_in, "status");
        if self.config.has_title(title.as_str()) {
            return false;
        }
        let entry = ConfigEntry { url, folder: copy_str(title.as_str()), label, status };
        self.config.add_entry(title.as_str(), entry);
        true
    }

    /// Removes the list at a position, giving its title; a position past
    /// the end changes nothing.
    pub fn delete_config(&mut self, num_in: usize) -> (r: Option<String>)
        requires
            old(self).config.wf(),
        ensures
            final(self).config.wf(),
            num_in < old(self).config.titles@.len() ==> {
                &&& r matches Some(t) && t@ == old(self).config.titles.deep_view()[num_in as int]
                &&& list_removed(old(self).config, final(self).config, num_in as int)
            },
            num_in >= old(self).config.titles@.len() ==> r is None && final(self).config == old(
                self,
            ).config,
    {
        if num_in < self.config.titles.len() {
            Some(self.config.remove_at(num_in))
        } else {
            None
        }
    }

    /// Whether a list with this status is due for a refresh on `today`.
    pub fn needs_update(status: &str, today: i32) -> (r: bool)
        requires
            valid_day(today as int),
        ensures
            r == spec_needs_update(status@, today as int),
    {
        match parse_ymd(status) {
            Some(d) => today as i64 - d as i64 > 1,
            None => true,
        }
    }

    /// The titles of the lists due for a refresh on `today`, in list order.
    pub fn update_plan(&self, today: i32) -> (r: Vec<String>)
        requires
            self.config.wf(),
            valid_day(today as int),
        ensures
            r.deep_view() == due_titles(
                self.config.titles.deep_view(),
                self.config.entries@,
                today as int,
                self.config.titles@.len() as nat,
            ),
    {
        let mut out: Vec<String> = Vec::new();
        let n = self.config.titles.len();
        for i in 0..n
            invariant
                n == self.config.titles@.len(),
                self.config.wf(),
                valid_day(today as int),
                out.deep_view() =~= due_titles(
                    self.config.titles.deep_view(),
                    self.config.entries@,
                    today as int,
                    i as nat,
                ),
        {
            if Self::needs_update(self.config.entries[i].status.as_str(), today) {
                assert(self.config.titles.deep_view()[i as int] == self.config.titles@[i as int]@);
                out.push(copy_str(self.config.titles[i].as_str()));
            }
        }
        out
    }

    /// Records that a list was fetched on the day `today_text` names.
    pub fn mark_updated(&mut self, title: &str, today_text: &str)
        requires
            old(self).config.wf(),
        ensures
            final(self).config.wf(),
            final(self).config.titles@ == old(self).config.titles@,
            match old(self).config.index_of(title@) {
                Some(k) => final(self).config.entries@[k].status@ == today_text@,
                None => final(self).config.entries@ == old(self).config.entries@,
            },
    {
        self.config.set_status(title, today_text);
    }

    /// The folder downloads of a URL go to.
    pub fn folder_dir(folder: &str) -> (r: String)
        ensures
            r@ == folder_dir(folder@),
    {
        proof {
            reveal_strlit("/");
            reveal_strlit("downloads/");
        }
        let f = crate::text::to_chars(folder);
        let slash = crate::text::to_chars("/");
        if crate::text::starts_with_chars(f.as_slice(), slash.as_slice()) {
            copy_str(folder)
        } else {
            let mut out = copy_str("downloads/");
            push_str(&mut out, folder);
            out
        }
    }

    /// One download of a list: the placeholders of the URL filled with the
    /// number and the date (written as the list's label wants it), the part
    /// after `@Post:` sent as a form, saved under the list's folder.
    pub fn job(
        &self,
        dir: &str,
        url_in: &str,
        num: &str,
        date: &str,
        today: i32,
        rules: &Option<String>,
    ) -> (c: Crawl)
        requires
            valid_day(today as int),
        ensures
            is_job(c, self.config.entries@, opt_view(*rules), dir@, url_in@, num@, date@, today as int),
    {
        proof {
            reveal_strlit("@date");
            reveal_strlit("@num");
            reveal_strlit("@Post:");
            reveal_strlit("/");
            reveal_strlit(".txt");
        }
        let origin = self.config.to_origin(date, url_in, today);
        let a = replace_str(url_in, "@date", origin.as_str());
        let filled = replace_str(a.as_str(), "@num", num);
        let parts = split_pat_str(filled.as_str(), "@Post:");
        let fetched = parts[0].as_str();
        let base = crate::lib_utils::LibUtils::url_to_name(fetched);
        let mut path = copy_str(dir);
        push_str(&mut path, "/");
        push_str(&mut path, base.as_str());
        if str_contains(url_in, "@num") {
            push_char(&mut path, '_');
            push_str(&mut path, num);
        }
        if str_contains(url_in, "@date") {
            push_char(&mut path, '_');
            push_str(&mut path, date);
        }
        push_str(&mut path, ".txt");
        assert(path@ =~= job_path(dir@, url_in@, fetched@, num@, date@));
        let mut c = Crawl::new(fetched, rules);
        c.set_path(path.as_str());
        if str_contains(url_in, "@Post:") && parts.len() > 1 {
            c.set_post(parts[1].as_str());
        }
        c
    }

    /// The relay file's new text once the relay `name_in` is saved with the
    /// given settings: the file's JSON object (an empty one where there is
    /// no file or it does not parse) with `name_in` set to the object of the
    /// settings, pretty printed. Where the relay is saved, reading it back
    /// gives the settings, and every other relay reads as it did.
    pub fn add_relay(relays: &Option<String>, name_in: &str, list_in: &Vec<(String, String)>) -> (r: String)
        ensures
            r@ == member_set(
                relay_base(opt_view(*relays)),
                name_in@,
                list_in@.map_values(|p: (String, String)| kv_view(p)),
            ),
            relay_settable(relay_base(opt_view(*relays)), name_in@) ==> spec_relay(Some(r@), name_in@)
                == relay_of(list_in@.map_values(|p: (String, String)| kv_view(p))),
            relay_settable(relay_base(opt_view(*relays)), name_in@) ==> forall|n: Seq<char>|
                plain_token(n) && n != name_in@ ==> #[trigger] spec_relay(Some(r@), n) == spec_relay(
                    Some(relay_base(opt_view(*relays))),
                    n,
                ),
    {
        proof {
            reveal_strlit("{}");
        }
        let r = match relays {
            Some(t) => set_member(t.as_str(), name_in, list_in),
            None => set_member("{}", name_in, list_in),
        };
        proof {
            if relay_settable(relay_base(opt_view(*relays)), name_in@) {
                reveal_strlit("URL");
                reveal_strlit("request");
                reveal_strlit("date");
                reveal_strlit("num");
                reveal_strlit("/URL");
                reveal_strlit("/request");
                reveal_strlit("/date");
                reveal_strlit("/num");
                let pv = list_in@.map_values(|p: (String, String)| kv_view(p));
                assert("/URL"@ =~= seq!['/'] + "URL"@);
                lemma_relay_pointer(r@, name_in@, pv, "URL"@, "/URL"@);
                assert("/request"@ =~= seq!['/'] + "request"@);
                lemma_relay_pointer(r@, name_in@, pv, "request"@, "/request"@);
                assert("/date"@ =~= seq!['/'] + "date"@);
                lemma_relay_pointer(r@, name_in@, pv, "date"@, "/date"@);
                assert("/num"@ =~= seq!['/'] + "num"@);
                lemma_relay_pointer(r@, name_in@, pv, "num"@, "/num"@);
                let base = relay_base(opt_view(*relays));
                assert forall|n: Seq<char>| plain_token(n) && n != name_in@ implies #[trigger] spec_relay(
                    Some(r@),
                    n,
                ) == spec_relay(Some(base), n) by {
                    assert(json_key_present(r@, n) == json_key_present(base, n));
                    assert("/URL"@[0] == '/');
                    assert("/request"@[0] == '/');
                    assert("/date"@[0] == '/');
                    assert("/num"@[0] == '/');
                    assert(json_pointer_text(r@, seq!['/'] + n + "/URL"@) == json_pointer_text(base, seq!['/'] + n + "/URL"@));
                    assert(json_pointer_text(r@, seq!['/'] + n + "/request"@) == json_pointer_text(base, seq!['/'] + n + "/request"@));
                    assert(json_pointer_text(r@, seq!['/'] + n + "/date"@) == json_pointer_text(base, seq!['/'] + n + "/date"@));
                    assert(json_pointer_text(r@, seq!['/'] + n + "/num"@) == json_pointer_text(base, seq!['/'] + n + "/num"@));
                }
            }
        }
        r
    }

    /// The relay file's new text once the relay `name_in` is removed from
    /// it (see `member_removed`); `None` (nothing to write) where there is
    /// no relay file. The removed relay then reads as empty.
    pub fn delete_relay(relays: &Option<String>, name_in: &str) -> (r: Option<String>)
        ensures
            match relays {
                Some(t) => r matches Some(s) && s@ == member_removed(t@, name_in@) && spec_relay(
                    Some(s@),
                    name_in@,
                ) == (Seq::<char>::empty(), Seq::<char>::empty(), Seq::<char>::empty(), Seq::<char>::empty()),
                None => r is None,
            },
    {
        match relays {
            Some(t) => Some(remove_member(t.as_str(), name_in)),
            None => None,
        }
    }

    /// How long to wait between two downloads, in milliseconds: a moment
    /// drawn between half a second and five seconds.
    pub fn pause_ms() -> (r: u64)
        ensures
            500 <= r < 5000,
    {
        500 + random_below(4500)
    }

    /// The downloads of the list fetched from a URL: one per number and
    /// date of its streams, grouped by number.
    pub fn download(
        &self,
        url_in: &str,
        today: i32,
        lists: &CodeLists,
        rules: &Option<String>,
    ) -> (r: Result<Vec<Vec<Crawl>>, DownloadError>)
        requires
            valid_day(today as int),
        ensures
            match find_url(self.config.entries@, url_in@) {
                Some(k) if self.config.entries@[k].folder@.len() > 0 => r matches Ok(jobs) && {
                    let nums = spec_stream_num(self.config.entries@, url_in@, Seq::empty(), *lists);
                    let dates = spec_stream_date(self.config.entries@, url_in@, Seq::empty(), today as int);
                    let dir = folder_dir(self.config.entries@[k].folder@);
                    &&& jobs@.len() == nums.len()
                    &&& forall|i: int| 0 <= i < nums.len() ==> #[trigger] jobs@[i]@.len() == dates.len()
                    &&& forall|i: int, j: int| 0 <= i < nums.len() && 0 <= j < dates.len() ==> is_job(
                        #[trigger] jobs@[i]@[j],
                        self.config.entries@,
                        opt_view(*rules),
                        dir,
                        url_in@,
                        nums[i],
                        dates[j],
                        today as int,
                    )
                },
                _ => r matches Err(DownloadError::UnknownUrl),
            },
    {
        let k = match self.config.find_url(url_in) {
            Some(k) => k,
            None => {
                return Err(DownloadError::UnknownUrl);
            },
        };
        proof {
            lemma_find_url(self.config.entries@, url_in@);
        }
        if self.config.entries[k].folder.as_str().is_empty() {
            return Err(DownloadError::UnknownUrl);
        }
        let dir = Self::folder_dir(self.config.entries[k].folder.as_str());
        proof {
            reveal_strlit("");
            assert(""@ =~= Seq::<char>::empty());
        }
        let nums = self.config.stream_num(url_in, "", lists);
        let dates = self.config.stream_date(url_in, "", today);
        let ghost ns = nums.deep_view();
        let ghost ds = dates.deep_view();
        let mut jobs: Vec<Vec<Crawl>> = Vec::new();
        let n = nums.len();
        let m = dates.len();
        for i in 0..n
            invariant
                n == nums@.len(),
                m == dates@.len(),
                ns == nums.deep_view(),
                ds == dates.deep_view(),
                valid_day(today as int),
                jobs@.len() == i,
                forall|a: int| 0 <= a < i ==> #[trigger] jobs@[a]@.len() == m,
                forall|a: int, b: int| 0 <= a < i && 0 <= b < m ==> is_job(
                    #[trigger] jobs@[a]@[b],
                    self.config.entries@,
                    opt_view(*rules),
                    dir@,
                    url_in@,
                    ns[a],
                    ds[b],
                    today as int,
                ),
        {
            let mut row: Vec<Crawl> = Vec::new();
            for j in 0..m
                invariant
                    n == nums@.len(),
                    m == dates@.len(),
                    i < n,
                    ns == nums.deep_view(),
                    ds == dates.deep_view(),
                    valid_day(today as int),
                    row@.len() == j,
                    forall|b: int| 0 <= b < j ==> is_job(
                        #[trigger] row@[b],
                        self.config.entries@,
                        opt_view(*rules),
                        dir@,
                        url_in@,
                        ns[i as int],
                        ds[b],
                        today as int,
                    ),
            {
                assert(ns[i as int] == nums@[i as int]@ && ds[j as int] == dates@[j as int]@);
                let c = self.job(dir.as_str(), url_in, nums[i].as_str(), dates[j].as_str(), today, rules);
                row.push(c);
            }
            jobs.push(row);
        }
        Ok(jobs)
    }
}

/// `after` is `before` with the list of the given `title`, `URL`, `label`
/// and `status` values added at the end (its folder is its title).
pub open spec fn list_added(before: Config, after: Config, list: Seq<(String, String)>) -> bool {
    &&& after.titles.deep_view() == before.titles.deep_view().push(assoc_get(list, "title"@))
    &&& after.entries@.len() == before.entries@.len() + 1
    &&& forall|j: int| 0 <= j < before.entries@.len() ==> #[trigger] after.entries@[j] == before.entries@[j]
    &&& after.entries@.last().url@ == assoc_get(list, "URL"@)
    &&& after.entries@.last().folder@ == assoc_get(list, "title"@)
    &&& after.entries@.last().label@ == assoc_get(list, "label"@)
    &&& after.entries@.last().status@ == assoc_get(list, "status"@)
}

/// `after` is `before` without the list at position `i`.
pub open spec fn list_removed(before: Config, after: Config, i: int) -> bool {
    &&& after.titles.deep_view() == before.titles.deep_view().remove(i)
    &&& after.entries@ == before.entries@.remove(i)
}

/// Adding a list and then deleting the last list gives back the lists as
/// they were.
pub proof fn law_add_then_delete(before: Config, mid: Config, after: Config, list: Seq<(String, String)>)
    requires
        before.wf(),
        list_added(before, mid, list),
        list_removed(mid, after, before.titles@.len() as int),
    ensures
        after.titles.deep_view() == before.titles.deep_view(),
        after.entries@ == before.entries@,
{
    assert(after.titles.deep_view() =~= before.titles.deep_view());
    assert(after.entries@ =~= before.entries@);
}

/// An added list is found under its title, at the end.
pub proof fn law_added_is_found(before: Config, after: Config, list: Seq<(String, String)>)
    requires
        before.wf(),
        before.index_of(assoc_get(list, "title"@)) is None,
        list_added(before, after, list),
    ensures
        after.index_of(assoc_get(list, "title"@)) == Some(before.titles@.len() as int),
{
    assert(after.titles.deep_view().drop_last() =~= before.titles.deep_view());
}

/// A relay can be saved under `name` in the relay text: the text is an
/// object (`{}` when there is no relay file), or no JSON (read as an empty
/// one), and the name needs no pointer escapes.
pub open spec fn relay_settable(text: Seq<char>, name: Seq<char>) -> bool {
    &&& (text == "{}"@ || member_settable(text))
    &&& plain_token(name)
}

/// The relay that the given settings describe (the last value of each of
/// `URL`, `request`, `date` and `num`, empty where missing).
pub open spec fn relay_of(pairs: Seq<(Seq<char>, Seq<char>)>) -> (Seq<char>, Seq<char>, Seq<char>, Seq<char>) {
    (
        field_or_empty(last_value(pairs, "URL"@)),
        field_or_empty(last_value(pairs, "request"@)),
        field_or_empty(last_value(pairs, "date"@)),
        field_or_empty(last_value(pairs, "num"@)),
    )
}

proof fn lemma_relay_pointer(
    text: Seq<char>,
    name: Seq<char>,
    pairs: Seq<(Seq<char>, Seq<char>)>,
    field: Seq<char>,
    slashed: Seq<char>,
)
    requires
        slashed == seq!['/'] + field,
        plain_token(field),
        plain_token(name) ==> forall|f: Seq<char>|
            plain_token(f) ==> #[trigger] json_pointer_text(text, seq!['/'] + name + seq!['/'] + f)
                == last_value(pairs, f),
        plain_token(name),
    ensures
        json_pointer_text(text, seq!['/'] + name + slashed) == last_value(pairs, field),
{
    assert(seq!['/'] + name + slashed =~= seq!['/'] + name + seq!['/'] + field);
}

/// The text the relay file is read as: `{}` when there is none.
pub open spec fn relay_base(relays: Option<Seq<char>>) -> Seq<char> {
    match relays {
        Some(t) => t,
        None => "{}"@,
    }
}

/// The titles of the first `n` lists that are due on `today`.
pub open spec fn due_titles(titles: Seq<Seq<char>>, entries: Seq<ConfigEntry>, today: int, n: nat) -> Seq<Seq<char>>
    decreases n,
{
    if n == 0 {
        Seq::empty()
    } else {
        let rest = due_titles(titles, entries, today, (n - 1) as nat);
        if spec_needs_update(entries[n - 1].status@, today) {
            rest.push(titles[n - 1])
        } else {
            rest
        }
    }
}

} // verus!
