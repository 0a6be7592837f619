use vstd::prelude::*;
use vstd::utf8::{decode_utf8, valid_utf8};
use crate::codec::{big5_decode, big5_text, upper_text, uppercase, utf8_decode, utf8_lossy, utf8_lossy_text};
use crate::json::{json_is_object, json_object_check, json_insert_string, json_string_set};
use crate::random::random_below;
use crate::lib_utils::{spec_get_tag, spec_is_html, spec_url_to_name, LibUtils};
use crate::text::{
    copy_str, drop_empty, lemma_split_nonempty, lemma_split_pat_nonempty, nonempty_lines, opt_view, push_str,
    replace, replace_str, split, split_pat, split_pat_str, split_str, str_eq, trim, trim_str,
};

verus! {

/// One fetch: the URL, the site tag derived from its host, the text codec
/// of the site, where the result is saved, and an optional form to post.
pub struct Crawl {
    url: String,
    tag: String,
    codec_name: String,
    path: String,
    post_data: Option<String>,
}

/// The user agents used when no user-agent file lists any.
pub const DEFAULT_AGENTS: [&'static str; 3] = [
    "Opera/9.64 (Windows NT 6.0; U; pl) Presto/2.1.1",
    "Mozilla/1.22 (compatible; MSIE 10.0; Windows 3.1)",
    "Mozilla/4.0(compatible; MSIE 7.0b; Windows NT 6.0)",
];

/// The host of a URL: after `://` (if any), before the first `/` and `:`.
pub open spec fn host_of(url: Seq<char>) -> Seq<char> {
    let pieces = split_pat(url, "://"@);
    let after = if pieces.len() >= 2 {
        pieces[1]
    } else {
        url
    };
    split(split(after, '/')[0], ':')[0]
}

/// The site tag of a URL: its host with `.` written as `_`.
pub open spec fn tag_of(url: Seq<char>) -> Seq<char> {
    replace(host_of(url), "."@, "_"@)
}

/// The codec rule for a site, `UTF-8` when there is none.
pub open spec fn codec_for(rules: Option<Seq<char>>, tag: Seq<char>) -> Seq<char> {
    let c = spec_get_tag(rules, tag + "/codec"@);
    if c.len() == 0 {
        "UTF-8"@
    } else {
        c
    }
}

/// The decoded text of a fetched body.
pub open spec fn decoded(codec: Seq<char>, bytes: Seq<u8>) -> Seq<char> {
    if upper_text(codec) == "BIG5"@ {
        let (t, bad) = big5_text(bytes);
        if bad {
            utf8_lossy_text(bytes)
        } else {
            t
        }
    } else if valid_utf8(bytes) {
        decode_utf8(bytes)
    } else {
        utf8_lossy_text(bytes)
    }
}

/// The text saved for a fetched body: HTML gets the site tag appended in a
/// `tag` element; a JSON object gets the tag as its `tag` key (pretty printed).
pub open spec fn finished(text: Seq<char>, tag: Seq<char>) -> Seq<char> {
    if spec_is_html(text) {
        text + "<tag>"@ + tag + "</tag>"@
    } else if json_is_object(text) {
        json_string_set(text, "tag"@, tag)
    } else {
        text
    }
}

/// The request headers for a fetch.
pub open spec fn headers_for(url: Seq<char>, codec: Seq<char>, agent: Seq<char>) -> Seq<(Seq<char>, Seq<char>)> {
    seq![
        ("Host"@, host_of(url)),
        ("Accept"@, "*/*"@),
        ("Origin"@, url),
        ("Referer"@, url),
        ("Connection"@, "keep-alive"@),
        ("X-Requested-With"@, "XMLHttpRequest"@),
        ("Accept-Language"@, "zh-TW,zh-Hant;q=0.9"@),
        ("User-Agent"@, agent),
        ("Content-Type"@, "application/x-www-form-urlencoded; charset="@ + codec),
    ]
}

pub open spec fn pair_view(p: (String, String)) -> (Seq<char>, Seq<char>) {
    (p.0@, p.1@)
}

impl Crawl {
    pub closed spec fn spec_url(&self) -> Seq<char> {
        self.url@
    }

    pub closed spec fn spec_tag(&self) -> Seq<char> {
        self.tag@
    }

    pub closed spec fn spec_codec(&self) -> Seq<char> {
        self.codec_name@
    }

    pub closed spec fn spec_path(&self) -> Seq<char> {
        self.path@
    }

    pub closed spec fn spec_post(&self) -> Option<Seq<char>> {
        opt_view(self.post_data)
    }

    /// The host of a URL.
    pub fn host(url: &str) -> (r: String)
        ensures
            r@ == host_of(url@),
    {
        proof {
            reveal_strlit("://");
        }
        let pieces = split_pat_str(url, "://");
        let after = if pieces.len() >= 2 {
            copy_str(pieces[1].as_str())
        } else {
            copy_str(url)
        };
        let a = split_str(after.as_str(), '/');
        proof {
            lemma_split_nonempty(after@, '/');
        }
        let b = split_str(a[0].as_str(), ':');
        proof {
            lemma_split_nonempty(a@[0]@, ':');
        }
        copy_str(b[0].as_str())
    }

    /// A fetch of `url_in`, saved as `downloads/<name>.txt`; its codec comes
    /// from the parse rules (the rule file's text, when it could be read).
    pub fn new(url_in: &str, rules: &Option<String>) -> (r: Crawl)
        ensures
            r.spec_url() == url_in@,
            r.spec_tag() == tag_of(url_in@),
            r.spec_codec() == codec_for(opt_view(*rules), tag_of(url_in@)),
            r.spec_path() == "downloads/"@ + spec_url_to_name(url_in@) + ".txt"@,
            r.spec_post() is None,
    {
        proof {
            reveal_strlit(".");
            reveal_strlit("_");
            reveal_strlit("/codec");
            reveal_strlit("UTF-8");
            reveal_strlit("downloads/");
            reveal_strlit(".txt");
        }
        let host = Self::host(url_in);
        let tag = replace_str(host.as_str(), ".", "_");
        let mut key = copy_str(tag.as_str());
        push_str(&mut key, "/codec");
        let found = LibUtils::get_tag(rules, key.as_str());
        let codec_name = if found.as_str().is_empty() {
            copy_str("UTF-8")
        } else {
            found
        };
        let name = LibUtils::url_to_name(url_in);
        let mut path = copy_str("downloads/");
        push_str(&mut path, name.as_str());
        push_str(&mut path, ".txt");
        Crawl { url: copy_str(url_in), tag, codec_name, path, post_data: None }
    }

    /// Sends `form_in` as a form post instead of fetching.
    pub fn set_post(&mut self, form_in: &str)
        ensures
            final(self).spec_post() == Some(form_in@),
            final(self).spec_url() == old(self).spec_url(),
            final(self).spec_tag() == old(self).spec_tag(),
            final(self).spec_codec() == old(self).spec_codec(),
            final(self).spec_path() == old(self).spec_path(),
    {
        self.post_data = Some(copy_str(form_in));
    }

    /// Saves the result at `path_in`.
    pub fn set_path(&mut self, path_in: &str)
        ensures
            final(self).spec_path() == path_in@,
            final(self).spec_url() == old(self).spec_url(),
            final(self).spec_tag() == old(self).spec_tag(),
            final(self).spec_codec() == old(self).spec_codec(),
            final(self).spec_post() == old(self).spec_post(),
    {
        self.path = copy_str(path_in);
    }

    pub fn url(&self) -> (r: &str)
        ensures
            r@ == self.spec_url(),
    {
        self.url.as_str()
    }

    pub fn tag(&self) -> (r: &str)
        ensures
            r@ == self.spec_tag(),
    {
        self.tag.as_str()
    }

    pub fn codec(&self) -> (r: &str)
        ensures
            r@ == self.spec_codec(),
    {
        self.codec_name.as_str()
    }

    pub fn path(&self) -> (r: &str)
        ensures
            r@ == self.spec_path(),
    {
        self.path.as_str()
    }

    pub fn post_data(&self) -> (r: Option<String>)
        ensures
            opt_view(r) == self.spec_post(),
    {
        match &self.post_data {
            Some(p) => Some(copy_str(p.as_str())),
            None => None,
        }
    }

    /// The user agents to pick from: the non-empty trimmed lines of the
    /// user-agent file (its text, when it could be read), or the defaults
    /// when it lists none.
    pub fn user_agents(content: &Option<String>) -> (r: Vec<String>)
        ensures
            match content {
                Some(c) if nonempty_lines(c@).len() > 0 => r.deep_view() == nonempty_lines(c@),
                _ => r.deep_view() == seq![
                    DEFAULT_AGENTS[0]@,
                    DEFAULT_AGENTS[1]@,
                    DEFAULT_AGENTS[2]@,
                ],
            },
            r@.len() > 0,
    {
        match content {
            Some(c) => {
                let lines = Self::lines(c.as_str());
                if lines.len() > 0 {
                    return lines;
                }
            },
            None => {},
        }
        let mut v: Vec<String> = Vec::new();
        v.push(copy_str(DEFAULT_AGENTS[0]));
        v.push(copy_str(DEFAULT_AGENTS[1]));
        v.push(copy_str(DEFAULT_AGENTS[2]));
        assert(v.deep_view() =~= seq![DEFAULT_AGENTS[0]@, DEFAULT_AGENTS[1]@, DEFAULT_AGENTS[2]@]);
        v
    }

    /// One of the user agents, drawn at random.
    pub fn pick_agent(agents: &Vec<String>) -> (r: String)
        requires
            agents@.len() > 0,
        ensures
            exists|i: int| 0 <= i < agents@.len() && r@ == #[trigger] agents@[i]@,
    {
        let n = agents.len();
        let i = random_below(n as u64) as usize;
        copy_str(agents[i].as_str())
    }

    /// The non-empty trimmed lines of a text.
    pub fn lines(text: &str) -> (r: Vec<String>)
        ensures
            r.deep_view() == nonempty_lines(text@),
    {
        let raw = split_str(text, '\n');
        let ghost pieces = split(text@, '\n');
        let ghost trimmed = pieces.map_values(|l: Seq<char>| trim(l));
        let mut out: Vec<String> = Vec::new();
        let n = raw.len();
        for i in 0..n
            invariant
                n == raw@.len(),
                n == pieces.len(),
                pieces == split(text@, '\n'),
                trimmed == pieces.map_values(|l: Seq<char>| trim(l)),
                forall|k: int| 0 <= k < n ==> #[trigger] raw@[k]@ == pieces[k],
                out.deep_view() =~= drop_empty(trimmed.take(i as int)),
        {
            let t = trim_str(raw[i].as_str());
            proof {
                assert(trimmed.take(i + 1).drop_last() =~= trimmed.take(i as int));
                assert(trimmed.take(i + 1).last() == t@);
            }
            if !t.as_str().is_empty() {
                out.push(t);
            }
        }
        assert(trimmed.take(n as int) =~= trimmed);
        out
    }

    /// The request headers for this fetch, with the given user agent.
    pub fn headers(&self, agent: &str) -> (r: Vec<(String, String)>)
        ensures
            r@.map_values(|p: (String, String)| pair_view(p)) == headers_for(
                self.spec_url(),
                self.spec_codec(),
                agent@,
            ),
    {
        proof {
            reveal_strlit("Host");
            reveal_strlit("Accept");
            reveal_strlit("*/*");
            reveal_strlit("Origin");
            reveal_strlit("Referer");
            reveal_strlit("Connection");
            reveal_strlit("keep-alive");
            reveal_strlit("X-Requested-With");
            reveal_strlit("XMLHttpRequest");
            reveal_strlit("Accept-Language");
            reveal_strlit("zh-TW,zh-Hant;q=0.9");
            reveal_strlit("User-Agent");
            reveal_strlit("Content-Type");
            reveal_strlit("application/x-www-form-urlencoded; charset=");
        }
        let mut v: Vec<(String, String)> = Vec::new();
        v.push((copy_str("Host"), Self::host(self.url.as_str())));
        v.push((copy_str("Accept"), copy_str("*/*")));
        v.push((copy_str("Origin"), copy_str(self.url.as_str())));
        v.push((copy_str("Referer"), copy_str(self.url.as_str())));
        v.push((copy_str("Connection"), copy_str("keep-alive")));
        v.push((copy_str("X-Requested-With"), copy_str("XMLHttpRequest")));
        v.push((copy_str("Accept-Language"), copy_str("zh-TW,zh-Hant;q=0.9")));
        v.push((copy_str("User-Agent"), copy_str(agent)));
        let mut ct = copy_str("application/x-www-form-urlencoded; charset=");
        push_str(&mut ct, self.codec_name.as_str());
        v.push((copy_str("Content-Type"), ct));
        assert(v@.map_values(|p: (String, String)| pair_view(p)) =~= headers_for(
            self.spec_url(),
            self.spec_codec(),
            agent@,
        ));
        v
    }

    /// The fetched body as text: BIG5 sites (codec name in any case) are
    /// decoded as BIG5, falling back to lossy UTF-8 on malformed input;
    /// others are UTF-8, lossy where invalid.
    pub fn decode(&self, bytes: &[u8]) -> (r: String)
        ensures
            r@ == decoded(self.spec_codec(), bytes@),
    {
        proof {
            reveal_strlit("BIG5");
        }
        let up = uppercase(self.codec_name.as_str());
        if str_eq(up.as_str(), "BIG5") {
            let (text, bad) = big5_decode(bytes);
            if bad {
                utf8_lossy(bytes)
            } else {
                text
            }
        } else {
            match utf8_decode(bytes) {
                Some(s) => s,
                None => utf8_lossy(bytes),
            }
        }
    }

    /// The text to save: HTML with the site tag appended, a JSON object
    /// with the site tag set, anything else as it is.
    pub fn finish(&self, text: &str) -> (r: String)
        ensures
            r@ == finished(text@, self.spec_tag()),
    {
        proof {
            reveal_strlit("<tag>");
            reveal_strlit("</tag>");
        }
        if LibUtils::is_html(text) {
            let mut out = copy_str(text);
            push_str(&mut out, "<tag>");
            push_str(&mut out, self.tag.as_str());
            push_str(&mut out, "</tag>");
            out
        } else if json_object_check(text) {
            json_insert_string(text, "tag", self.tag.as_str())
        } else {
            copy_str(text)
        }
    }
}

} // verus!
