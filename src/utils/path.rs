//! Repository paths of documents and the lists of WOF repositories.
//!
//! The document with the id 101748927 lives in the folder `data/101/748/927`:
//! the id is cut into groups of three digits.

use crate::value::views_of;
use crate::text::{chars_of, string_of};
use vstd::prelude::*;

verus! {

/// `id` cut into groups of three characters joined by `/`.
pub open spec fn path_folder(id: Seq<char>) -> Seq<char>
    decreases id.len(),
{
    if id.len() <= 3 {
        id
    } else {
        id.take(3) + seq!['/'] + path_folder(id.skip(3))
    }
}

/// Path `a` joined with `b` (`b` alone when `a` is empty).
pub open spec fn join_path(a: Seq<char>, b: Seq<char>) -> Seq<char> {
    if a.len() == 0 {
        b
    } else {
        a + seq!['/'] + b
    }
}

pub open spec fn path_geojson(id: Seq<char>) -> Seq<char> {
    join_path(path_folder(id), id + ".geojson"@)
}

/// Returns the WOF folder of an id: `890442055` gives `890/442/055`.
pub fn id_to_path_folder(id: &str) -> (r: String)
    ensures
        r@ == path_folder(id@),
{
    let cs = chars_of(id);
    let mut out: Vec<char> = Vec::new();
    let mut i: usize = 0;
    assert(cs@.skip(0) =~= cs@);
    assert(out@ + path_folder(cs@.skip(0)) =~= path_folder(id@));
    while cs.len() - i > 3
        invariant
            i <= cs@.len(),
            cs@ == id@,
            out@ + path_folder(cs@.skip(i as int)) == path_folder(id@),
        decreases cs@.len() - i,
    {
        let ghost rest = cs@.skip(i as int);
        out.push(cs[i]);
        out.push(cs[i + 1]);
        out.push(cs[i + 2]);
        out.push('/');
        assert(rest.take(3) + seq!['/'] =~= seq![cs@[i as int], cs@[i + 1], cs@[i + 2], '/']);
        assert(rest.skip(3) =~= cs@.skip(i + 3));
        assert(out@ + path_folder(cs@.skip(i + 3)) =~= path_folder(id@));
        i = i + 3;
    }
    while i < cs.len()
        invariant
            i <= cs@.len(),
            cs@ == id@,
            cs@.len() - i <= 3 || i == cs@.len(),
            out@ + cs@.skip(i as int) == path_folder(id@) || out@ + path_folder(cs@.skip(i as int))
                == path_folder(id@),
        decreases cs@.len() - i,
    {
        let ghost rest = cs@.skip(i as int);
        assert(path_folder(rest) == rest);
        out.push(cs[i]);
        assert(out@ + cs@.skip(i + 1) =~= path_folder(id@));
        i = i + 1;
    }
    proof {
        assert(cs@.skip(i as int) =~= Seq::<char>::empty());
        assert(path_folder(Seq::<char>::empty()) =~= Seq::<char>::empty());
        assert(out@ =~= path_folder(id@));
    }
    string_of(&out)
}

fn join(a: &String, b: &String) -> (r: String)
    ensures
        r@ == join_path(a@, b@),
{
    let ac = chars_of(a.as_str());
    if ac.len() == 0 {
        b.clone()
    } else {
        let mut r = a.clone();
        r.append("/");
        r.append(b.as_str());
        proof {
            reveal_strlit("/");
        }
        assert(r@ =~= join_path(a@, b@));
        r
    }
}

/// Returns the WOF document path of an id: `890/442/055/890442055.geojson`.
pub fn id_to_path_geojson(id: &str) -> (r: String)
    ensures
        r@ == path_geojson(id@),
{
    let mut file = id.to_string();
    file.append(".geojson");
    join(&id_to_path_folder(id), &file)
}

/// Returns the folder of an id under `data`: `data/890/442/055`.
pub fn id_to_data_path_folder(id: &str) -> (r: String)
    ensures
        r@ == join_path("data"@, path_folder(id@)),
{
    join(&"data".to_string(), &id_to_path_folder(id))
}

/// Returns the document path of an id under `data`: `data/890/442/055/890442055.geojson`.
pub fn id_to_data_path_geojson(id: &str) -> (r: String)
    ensures
        r@ == join_path("data"@, path_geojson(id@)),
{
    join(&"data".to_string(), &id_to_path_geojson(id))
}

/// The places where a document may be found under `base`, in the order they are tried:
/// `data/<folder>/<id>.geojson`, `<folder>/<id>.geojson`, `data/<id>`, `<id>`.
pub fn geojson_path_candidates(base: &str, id: &str) -> (r: Vec<String>)
    ensures
        views_of(r@) == seq![
            join_path(base@, join_path("data"@, path_geojson(id@))),
            join_path(base@, path_geojson(id@)),
            join_path(base@, join_path("data"@, id@)),
            join_path(base@, id@),
        ],
{
    let b = base.to_string();
    let i = id.to_string();
    let data = "data".to_string();
    let r = vec![
        join(&b, &id_to_data_path_geojson(id)),
        join(&b, &id_to_path_geojson(id)),
        join(&b, &join(&data, &i)),
        join(&b, &i),
    ];
    assert(views_of(r@) =~= seq![
        join_path(base@, join_path("data"@, path_geojson(id@))),
        join_path(base@, path_geojson(id@)),
        join_path(base@, join_path("data"@, id@)),
        join_path(base@, id@),
    ]);
    r
}

/// The URL of the archive of the WOF repository of `kind` (`admin`,
/// `postalcode`) for a country.
pub fn get_url(kind: &str, country: &str) -> (r: String)
    ensures
        r@ == "https://github.com/whosonfirst-data/whosonfirst-data-"@ + kind@ + "-"@ + country@
            + "/archive/master.tar.gz"@,
{
    let mut r = "https://github.com/whosonfirst-data/whosonfirst-data-".to_string();
    r.append(kind);
    r.append("-");
    r.append(country);
    r.append("/archive/master.tar.gz");
    r
}

fn strings_of_literals(v: Vec<&str>) -> (r: Vec<String>)
    ensures
        r@.len() == v@.len(),
        forall|i: int| 0 <= i < v@.len() ==> #[trigger] r@[i]@ == v@[i]@,
{
    let mut r: Vec<String> = Vec::new();
    let mut i: usize = 0;
    while i < v.len()
        invariant
            i <= v@.len(),
            r@.len() == i,
            forall|j: int| 0 <= j < i ==> #[trigger] r@[j]@ == v@[j]@,
        decreases v@.len() - i,
    {
        r.push(v[i].to_string());
        i = i + 1;
    }
    r
}

/// The country codes of the WOF admin repositories.
pub open spec fn country_codes() -> Seq<Seq<char>> {
    seq![
        "ad"@,
        "ae"@,
        "af"@,
        "ag"@,
        "ai"@,
        "al"@,
        "am"@,
        "an"@,
        "ao"@,
        "aq"@,
        "ar"@,
        "as"@,
        "at"@,
        "au"@,
        "aw"@,
        "ax"@,
        "az"@,
        "ba"@,
        "bb"@,
        "bd"@,
        "be"@,
        "bf"@,
        "bg"@,
        "bh"@,
        "bi"@,
        "bj"@,
        "bl"@,
        "bm"@,
        "bn"@,
        "bo"@,
        "bq"@,
        "br"@,
        "bs"@,
        "bt"@,
        "bw"@,
        "by"@,
        "bz"@,
        "ca"@,
        "cc"@,
        "cd"@,
        "cf"@,
        "cg"@,
        "ch"@,
        "ci"@,
        "ck"@,
        "cl"@,
        "cm"@,
        "cn"@,
        "co"@,
        "cr"@,
        "cu"@,
        "cv"@,
        "cw"@,
        "cx"@,
        "cy"@,
        "cz"@,
        "de"@,
        "dj"@,
        "dk"@,
        "dm"@,
        "dn"@,
        "do"@,
        "dz"@,
        "ec"@,
        "ee"@,
        "eg"@,
        "eh"@,
        "er"@,
        "es"@,
        "et"@,
        "fi"@,
        "fj"@,
        "fk"@,
        "fm"@,
        "fo"@,
        "fr"@,
        "ga"@,
        "gb"@,
        "gd"@,
        "ge"@,
        "gf"@,
        "gg"@,
        "gh"@,
        "gi"@,
        "gl"@,
        "gm"@,
        "gn"@,
        "gp"@,
        "gq"@,
        "gr"@,
        "gs"@,
        "gt"@,
        "gu"@,
        "gw"@,
        "gy"@,
        "hk"@,
        "hm"@,
        "hn"@,
        "hr"@,
        "ht"@,
        "hu"@,
        "id"@,
        "ie"@,
        "il"@,
        "im"@,
        "in"@,
        "io"@,
        "iq"@,
        "ir"@,
        "is"@,
        "it"@,
        "je"@,
        "jm"@,
        "jo"@,
        "jp"@,
        "ke"@,
        "kg"@,
        "kh"@,
        "ki"@,
        "km"@,
        "kn"@,
        "ko"@,
        "kp"@,
        "kr"@,
        "kw"@,
        "ky"@,
        "kz"@,
        "la"@,
        "lb"@,
        "lc"@,
        "li"@,
        "lk"@,
        "lr"@,
        "ls"@,
        "lt"@,
        "lu"@,
        "lv"@,
        "ly"@,
        "ma"@,
        "mc"@,
        "md"@,
        "me"@,
        "mf"@,
        "mg"@,
        "mh"@,
        "mk"@,
        "ml"@,
        "mm"@,
        "mn"@,
        "mo"@,
        "mp"@,
        "mq"@,
        "mr"@,
        "ms"@,
        "mt"@,
        "mu"@,
        "mv"@,
        "mw"@,
        "mx"@,
        "my"@,
        "mz"@,
        "na"@,
        "nc"@,
        "ne"@,
        "nf"@,
        "ng"@,
        "ni"@,
        "nl"@,
        "no"@,
        "np"@,
        "nr"@,
        "nu"@,
        "nz"@,
        "om"@,
        "pa"@,
        "pe"@,
        "pf"@,
        "pg"@,
        "ph"@,
        "pk"@,
        "pl"@,
        "pm"@,
        "pn"@,
        "pr"@,
        "ps"@,
        "pt"@,
        "pw"@,
        "py"@,
        "qa"@,
        "re"@,
        "ro"@,
        "rs"@,
        "ru"@,
        "rw"@,
        "sa"@,
        "sb"@,
        "sc"@,
        "sd"@,
        "se"@,
        "sg"@,
        "sh"@,
        "si"@,
        "sj"@,
        "sk"@,
        "sl"@,
        "sm"@,
        "sn"@,
        "so"@,
        "sr"@,
        "ss"@,
        "st"@,
        "sv"@,
        "sx"@,
        "sy"@,
        "sz"@,
        "tc"@,
        "td"@,
        "tf"@,
        "tg"@,
        "th"@,
        "tj"@,
        "tk"@,
        "tl"@,
        "tm"@,
        "tn"@,
        "to"@,
        "tr"@,
        "tt"@,
        "tu"@,
        "tv"@,
        "tw"@,
        "tz"@,
        "ua"@,
        "ug"@,
        "uk"@,
        "um"@,
        "un"@,
        "us"@,
        "uy"@,
        "uz"@,
        "va"@,
        "vc"@,
        "ve"@,
        "vg"@,
        "vi"@,
        "vn"@,
        "vu"@,
        "wf"@,
        "ws"@,
        "xk"@,
        "xn"@,
        "xs"@,
        "xx"@,
        "xy"@,
        "xz"@,
        "ye"@,
        "yt"@,
        "za"@,
        "zm"@,
        "zw"@
    ]
}

/// The codes of the WOF US venues repositories.
pub open spec fn us_venues_codes() -> Seq<Seq<char>> {
    seq![
        "us-ak"@,
        "us-al"@,
        "us-ar"@,
        "us-az"@,
        "us-ca"@,
        "us-co"@,
        "us-ct"@,
        "us-dc"@,
        "us-de"@,
        "us-fl"@,
        "us-ga"@,
        "us-hi"@,
        "us-ia"@,
        "us-id"@,
        "us-il"@,
        "us-in"@,
        "us-ks"@,
        "us-ky"@,
        "us-la"@,
        "us-ma"@,
        "us-md"@,
        "us-me"@,
        "us-mi"@,
        "us-mn"@,
        "us-mo"@,
        "us-ms"@,
        "us-mt"@,
        "us-nc"@,
        "us-nd"@,
        "us-ne"@,
        "us-nh"@,
        "us-nj"@,
        "us-nm"@,
        "us-nv"@,
        "us-ny"@,
        "us-oh"@,
        "us-ok"@,
        "us-or"@,
        "us-pa"@,
        "us-pr"@,
        "us-ri"@,
        "us-sc"@,
        "us-sd"@,
        "us-tn"@,
        "us-tx"@,
        "us-ut"@,
        "us-va"@,
        "us-vt"@,
        "us-wa"@,
        "us-wi"@,
        "us-wv"@,
        "us-wy"@
    ]
}

/// List of all available country codes for WOF repositories.
pub fn get_available_country_codes() -> (r: Vec<String>)
    ensures
        views_of(r@) == country_codes(),
{
    let v = vec![
    "ad", "ae", "af", "ag", "ai", "al", "am", "an", "ao", "aq", "ar", "as", "at", "au", "aw", "ax",
    "az", "ba", "bb", "bd", "be", "bf", "bg", "bh", "bi", "bj", "bl", "bm", "bn", "bo", "bq", "br",
    "bs", "bt", "bw", "by", "bz", "ca", "cc", "cd", "cf", "cg", "ch", "ci", "ck", "cl", "cm", "cn",
    "co", "cr", "cu", "cv", "cw", "cx", "cy", "cz", "de", "dj", "dk", "dm", "dn", "do", "dz", "ec",
    "ee", "eg", "eh", "er", "es", "et", "fi", "fj", "fk", "fm", "fo", "fr", "ga", "gb", "gd", "ge",
    "gf", "gg", "gh", "gi", "gl", "gm", "gn", "gp", "gq", "gr", "gs", "gt", "gu", "gw", "gy", "hk",
    "hm", "hn", "hr", "ht", "hu", "id", "ie", "il", "im", "in", "io", "iq", "ir", "is", "it", "je",
    "jm", "jo", "jp", "ke", "kg", "kh", "ki", "km", "kn", "ko", "kp", "kr", "kw", "ky", "kz", "la",
    "lb", "lc", "li", "lk", "lr", "ls", "lt", "lu", "lv", "ly", "ma", "mc", "md", "me", "mf", "mg",
    "mh", "mk", "ml", "mm", "mn", "mo", "mp", "mq", "mr", "ms", "mt", "mu", "mv", "mw", "mx", "my",
    "mz", "na", "nc", "ne", "nf", "ng", "ni", "nl", "no", "np", "nr", "nu", "nz", "om", "pa", "pe",
    "pf", "pg", "ph", "pk", "pl", "pm", "pn", "pr", "ps", "pt", "pw", "py", "qa", "re", "ro", "rs",
    "ru", "rw", "sa", "sb", "sc", "sd", "se", "sg", "sh", "si", "sj", "sk", "sl", "sm", "sn", "so",
    "sr", "ss", "st", "sv", "sx", "sy", "sz", "tc", "td", "tf", "tg", "th", "tj", "tk", "tl", "tm",
    "tn", "to", "tr", "tt", "tu", "tv", "tw", "tz", "ua", "ug", "uk", "um", "un", "us", "uy", "uz",
    "va", "vc", "ve", "vg", "vi", "vn", "vu", "wf", "ws", "xk", "xn", "xs", "xx", "xy", "xz", "ye",
    "yt", "za", "zm", "zw"
    ];
    let r = strings_of_literals(v);
    assert(views_of(r@) =~= country_codes());
    r
}

/// List of all US codes for WOF venues repositories.
pub fn get_available_us_venues_codes() -> (r: Vec<String>)
    ensures
        views_of(r@) == us_venues_codes(),
{
    let v = vec![
    "us-ak", "us-al", "us-ar", "us-az", "us-ca", "us-co", "us-ct", "us-dc", "us-de", "us-fl",
    "us-ga", "us-hi", "us-ia", "us-id", "us-il", "us-in", "us-ks", "us-ky", "us-la", "us-ma",
    "us-md", "us-me", "us-mi", "us-mn", "us-mo", "us-ms", "us-mt", "us-nc", "us-nd", "us-ne",
    "us-nh", "us-nj", "us-nm", "us-nv", "us-ny", "us-oh", "us-ok", "us-or", "us-pa", "us-pr",
    "us-ri", "us-sc", "us-sd", "us-tn", "us-tx", "us-ut", "us-va", "us-vt", "us-wa", "us-wi",
    "us-wv", "us-wy"
    ];
    let r = strings_of_literals(v);
    assert(views_of(r@) =~= us_venues_codes());
    r
}

/// `b` under directory `a`, with one `/` between them.
pub open spec fn dir_join(a: Seq<char>, b: Seq<char>) -> Seq<char> {
    if a.len() == 0 || a.last() == '/' {
        a + b
    } else {
        a + seq!['/'] + b
    }
}

/// A repository checkout.
pub struct Git {
    /// The working directory of the checkout.
    pub workdir: String,
}

impl Git {
    /// The checkout whose working directory is `workdir`.
    pub fn from_workdir(workdir: String) -> (r: Git)
        ensures
            r.workdir == workdir,
    {
        Git { workdir }
    }

    /// The `data` directory of the checkout.
    pub fn data_dir(&self) -> (r: String)
        ensures
            r@ == dir_join(self.workdir@, "data"@),
    {
        let w = chars_of(self.workdir.as_str());
        let mut r = self.workdir.clone();
        if w.len() > 0 && w[w.len() - 1] != '/' {
            r.append("/");
        }
        r.append("data");
        proof {
            reveal_strlit("/");
        }
        assert(r@ =~= dir_join(self.workdir@, "data"@));
        r
    }
}

} // verus!
