use vstd::prelude::*;
use vstd::string::StringExecFns;
use crate::text::{dec_digits, str_eq};
use crate::value::{VdfMap, VdfModel, VdfValue, find_value};

verus! {

/// One configured application, as carried by an entry of a shortcuts
/// object. The `icon` field holds the icon path exactly as decoded;
/// resolving it into displayable content is the caller's step and must not
/// affect parsing.
#[derive(Debug, Clone)]
pub struct ProtonApp {
    pub appname: String,
    pub appid: String,
    pub icon: String,
    pub lastplaytime: String,
    pub exe: String,
    pub startdir: String,
    pub installdir: String,
}

/// The fields of an application, as plain text.
pub struct ProtonAppModel {
    pub appname: Seq<char>,
    pub appid: Seq<char>,
    pub icon: Seq<char>,
    pub lastplaytime: Seq<char>,
    pub exe: Seq<char>,
    pub startdir: Seq<char>,
    pub installdir: Seq<char>,
}

impl View for ProtonApp {
    type V = ProtonAppModel;

    open spec fn view(&self) -> ProtonAppModel {
        ProtonAppModel {
            appname: self.appname@,
            appid: self.appid@,
            icon: self.icon@,
            lastplaytime: self.lastplaytime@,
            exe: self.exe@,
            startdir: self.startdir@,
            installdir: self.installdir@,
        }
    }
}

/// A value read as text: a string is itself, a number prints in base 10,
/// an object yields nothing.
pub open spec fn coerce_str(v: VdfModel) -> Option<Seq<char>> {
    match v {
        VdfModel::Text(t) => Some(t),
        VdfModel::Integer(n) => Some(dec_digits(n as nat)),
        VdfModel::Object(_) => None,
    }
}

/// The string held under a key, if the key is present and holds a string.
pub open spec fn text_field(m: Map<Seq<char>, VdfModel>, k: Seq<char>) -> Option<Seq<char>> {
    if m.dom().contains(k) {
        match m[k] {
            VdfModel::Text(t) => Some(t),
            _ => None,
        }
    } else {
        None
    }
}

/// The value held under a key read as text, if the key is present and the
/// value is no object.
pub open spec fn str_field(m: Map<Seq<char>, VdfModel>, k: Seq<char>) -> Option<Seq<char>> {
    if m.dom().contains(k) {
        coerce_str(m[k])
    } else {
        None
    }
}

/// The application projected from one value of a shortcuts object: present
/// exactly when the value is an object whose `icon` field is a string and
/// whose other required fields read as text. Its `installdir` starts empty.
pub open spec fn shortcut_app_of(v: VdfModel) -> Option<ProtonAppModel> {
    match v {
        VdfModel::Object(m) => {
            if text_field(m, "icon"@) is Some && str_field(m, "appid"@) is Some && str_field(
                m,
                "appname"@,
            ) is Some && str_field(m, "lastplaytime"@) is Some && str_field(m, "exe"@) is Some
                && str_field(m, "startdir"@) is Some {
                Some(
                    ProtonAppModel {
                        appname: str_field(m, "appname"@)->Some_0,
                        appid: str_field(m, "appid"@)->Some_0,
                        icon: text_field(m, "icon"@)->Some_0,
                        lastplaytime: str_field(m, "lastplaytime"@)->Some_0,
                        exe: str_field(m, "exe"@)->Some_0,
                        startdir: str_field(m, "startdir"@)->Some_0,
                        installdir: Seq::empty(),
                    },
                )
            } else {
                None
            }
        },
        _ => None,
    }
}

/// The applications projected from a sequence of entries, in entry order,
/// entries without the required fields skipped.
pub open spec fn apps_of_entries(s: Seq<(String, VdfValue)>) -> Seq<ProtonAppModel>
    decreases s.len(),
{
    if s.len() == 0 {
        Seq::empty()
    } else {
        match shortcut_app_of(s.last().1@) {
            Some(a) => apps_of_entries(s.drop_last()).push(a),
            None => apps_of_entries(s.drop_last()),
        }
    }
}

/// Projects every entry of a shortcuts object that carries the required
/// fields, in entry order.
pub fn shortcut_apps(sc: &VdfMap) -> (apps: Vec<ProtonApp>)
    ensures
        apps@.map_values(|a: ProtonApp| a@) == apps_of_entries(sc.entries@),
{
    let ghost s = sc.entries@;
    let mut apps: Vec<ProtonApp> = Vec::new();
    let mut i: usize = 0;
    let n = sc.entries.len();
    proof {
        assert(s.take(0) =~= Seq::<(String, VdfValue)>::empty());
        assert(apps@.map_values(|a: ProtonApp| a@) =~= apps_of_entries(s.take(0)));
    }
    while i < n
        invariant
            i <= n,
            n == s.len(),
            s == sc.entries@,
            apps@.map_values(|a: ProtonApp| a@) == apps_of_entries(s.take(i as int)),
        decreases n - i,
    {
        let ghost apps0 = apps@;
        let entry = &sc.entries[i].1;
        match ProtonApp::project_entry(entry) {
            Some(app) => {
                apps.push(app);
                proof {
                    assert(apps@.map_values(|a: ProtonApp| a@) =~= apps0.map_values(
                        |a: ProtonApp| a@,
                    ).push(shortcut_app_of(s[i as int].1@)->Some_0));
                }
            },
            None => {},
        }
        proof {
            assert(s.take(i + 1).drop_last() =~= s.take(i as int));
            assert(s.take(i + 1).last() == s[i as int]);
            assert(apps@.map_values(|a: ProtonApp| a@) =~= apps_of_entries(s.take(i + 1)));
        }
        i = i + 1;
    }
    proof {
        assert(s.take(n as int) =~= s);
    }
    apps
}

impl ProtonApp {
    /// Projects one value of a shortcuts object, if it carries the
    /// required fields.
    fn project_entry(entry: &VdfValue) -> (r: Option<ProtonApp>)
        ensures
            match r {
                Some(app) => shortcut_app_of(entry@) == Some(app@),
                None => shortcut_app_of(entry@) is None,
            },
    {
        let em = match entry.as_map() {
            Some(m) => m,
            None => {
                return None;
            },
        };
        let icon = match em.get("icon") {
            Some(v) => match v.as_str() {
                Some(s) => s.clone(),
                None => {
                    return None;
                },
            },
            None => {
                return None;
            },
        };
        let appid = match em.get("appid") {
            Some(v) => match v.copy_as_str() {
                Some(s) => s,
                None => {
                    return None;
                },
            },
            None => {
                return None;
            },
        };
        let appname = match em.get("appname") {
            Some(v) => match v.copy_as_str() {
                Some(s) => s,
                None => {
                    return None;
                },
            },
            None => {
                return None;
            },
        };
        let lastplaytime = match em.get("lastplaytime") {
            Some(v) => match v.copy_as_str() {
                Some(s) => s,
                None => {
                    return None;
                },
            },
            None => {
                return None;
            },
        };
        let exe = match em.get("exe") {
            Some(v) => match v.copy_as_str() {
                Some(s) => s,
                None => {
                    return None;
                },
            },
            None => {
                return None;
            },
        };
        let startdir = match em.get("startdir") {
            Some(v) => match v.copy_as_str() {
                Some(s) => s,
                None => {
                    return None;
                },
            },
            None => {
                return None;
            },
        };
        Some(
            ProtonApp {
                appname,
                appid,
                icon,
                lastplaytime,
                exe,
                startdir,
                installdir: String::new(),
            },
        )
    }

    /// Projects the applications out of a decoded shortcuts file: the
    /// top-level `shortcuts` entry must hold an object, and each of its
    /// values that carries the required fields becomes one application, in
    /// entry order.
    pub fn from_vdf_shortcut(vdf: &VdfMap) -> (r: Result<Vec<ProtonApp>, String>)
        ensures
            match r {
                Err(msg) => {
                    &&& msg@ == "Unable to parse shortcuts"@
                    &&& !(find_value(vdf.entries@, "shortcuts"@) matches Some(v) && v is Object)
                },
                Ok(apps) => (match find_value(vdf.entries@, "shortcuts"@) {
                    Some(VdfValue::Object(sc)) => apps@.map_values(|a: ProtonApp| a@)
                        == apps_of_entries(sc.entries@),
                    _ => false,
                }),
            },
    {
        let shortcuts = match vdf.get("shortcuts") {
            Some(v) => v,
            None => {
                return Err("Unable to parse shortcuts".to_owned());
            },
        };
        let sc = match shortcuts.as_map() {
            Some(m) => m,
            None => {
                return Err("Unable to parse shortcuts".to_owned());
            },
        };
        let apps = shortcut_apps(sc);
        Ok(apps)
    }

    /// The compatibility-prefix directory of this application under the
    /// given installation root.
    pub fn prefix_path(&self, steam_path: &str) -> (r: String)
        ensures
            r@ == steam_path@ + "/steamapps/compatdata/"@ + self.appid@ + "/pfx"@,
    {
        let mut s = steam_path.to_owned();
        s.append("/steamapps/compatdata/");
        s.append(self.appid.as_str());
        s.append("/pfx");
        s
    }

    /// The installation directory of this application under the given
    /// installation root; nothing when no directory is recorded.
    pub fn install_path(&self, steam_path: &str) -> (r: Option<String>)
        ensures
            (r is Some) == (self.installdir@.len() != 0),
            r matches Some(p) ==> p@ == steam_path@ + "/steamapps/common/"@ + self.installdir@,
    {
        if self.installdir.as_str().is_empty() {
            return None;
        }
        let mut s = steam_path.to_owned();
        s.append("/steamapps/common/");
        s.append(self.installdir.as_str());
        Some(s)
    }
}

/// Whether some application in the list carries the given identifier.
pub fn has_appid(apps: &Vec<ProtonApp>, appid: &str) -> (r: bool)
    ensures
        r == exists|i: int| 0 <= i < apps@.len() && (#[trigger] apps@[i].appid@) == appid@,
{
    let mut i: usize = 0;
    let n = apps.len();
    while i < n
        invariant
            i <= n,
            n == apps@.len(),
            forall|j: int| 0 <= j < i ==> (#[trigger] apps@[j].appid@) != appid@,
        decreases n - i,
    {
        if str_eq(apps[i].appid.as_str(), appid) {
            return true;
        }
        i = i + 1;
    }
    false
}

} // verus!
