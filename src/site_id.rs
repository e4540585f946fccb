use vstd::prelude::*;

use crate::error::RegistryError;

verus! {

/// What identifies a site in contracts: its server and its site name.
pub type SiteKey = (Seq<char>, Seq<char>);

/// No `/` among the characters of `s` from `lo` up to `hi`.
pub open spec fn no_slash_in(s: Seq<char>, lo: int, hi: int) -> bool {
    forall|j: int| lo <= j < hi ==> s[j] != '/'
}

pub open spec fn no_slash(s: Seq<char>) -> bool {
    no_slash_in(s, 0, s.len() as int)
}

/// The text of a site: `server/site`.
pub open spec fn site_text(server: Seq<char>, site: Seq<char>) -> Seq<char> {
    server + seq!['/'] + site
}

/// `s` holds exactly one `/`, at `i`.
pub open spec fn single_slash_at(s: Seq<char>, i: int) -> bool {
    &&& 0 <= i < s.len()
    &&& s[i] == '/'
    &&& no_slash_in(s, 0, i)
    &&& no_slash_in(s, i + 1, s.len() as int)
}

/// A text names a site when it holds exactly one `/`, between server and site name.
pub open spec fn is_site_text(s: Seq<char>) -> bool {
    exists|i: int| single_slash_at(s, i)
}

/// A monitoring site: a server and a site name on it.
#[derive(Debug, Clone)]
pub struct SiteID {
    pub server: String,
    pub site: String,
}

impl SiteID {
    pub open spec fn key(&self) -> SiteKey {
        (self.server@, self.site@)
    }

    pub open spec fn text(&self) -> Seq<char> {
        site_text(self.server@, self.site@)
    }

    pub fn new(server: &str, site: &str) -> (r: SiteID)
        ensures
            r.server@ == server@,
            r.site@ == site@,
    {
        SiteID { server: String::from_str(server), site: String::from_str(site) }
    }

    /// The text `server/site`.
    pub fn to_string(&self) -> (r: String)
        ensures
            r@ == self.text(),
    {
        let mut r = self.server.clone();
        r.append("/");
        r.append(self.site.as_str());
        proof {
            reveal_strlit("/");
        }
        r
    }

    /// Reads `server/site`; a text with no `/` or with more than one is refused.
    pub fn from_str(s: &str) -> (r: Result<SiteID, RegistryError>)
        ensures
            r is Ok <==> is_site_text(s@),
            r matches Ok(id) ==> id.text() == s@ && no_slash(id.server@) && no_slash(id.site@),
            r matches Err(e) ==> e is InvalidSiteId,
    {
        let n = s.unicode_len();
        let mut slash: usize = n;
        let mut i: usize = 0;
        while i < n
            invariant
                n == s@.len(),
                i <= n,
                slash == n ==> no_slash_in(s@, 0, i as int),
                slash != n ==> slash < i && s@[slash as int] == '/' && no_slash_in(s@, 0, slash as int)
                    && no_slash_in(s@, slash + 1, i as int),
            decreases n - i,
        {
            if s.get_char(i) == '/' {
                if slash != n {
                    proof {
                        assert forall|k: int| !single_slash_at(s@, k) by {
                            if single_slash_at(s@, k) {
                                if k < slash {
                                    assert(s@[slash as int] != '/');
                                } else if k > slash {
                                    assert(s@[slash as int] != '/');
                                } else {
                                    assert(s@[i as int] != '/');
                                }
                            }
                        }
                    }
                    return Err(RegistryError::InvalidSiteId(String::from_str("site ID must be given as server/site")));
                }
                slash = i;
            }
            i = i + 1;
        }
        if slash == n {
            proof {
                assert forall|k: int| !single_slash_at(s@, k) by {
                    if single_slash_at(s@, k) {
                        assert(s@[k] != '/');
                    }
                }
            }
            return Err(RegistryError::InvalidSiteId(String::from_str("site ID must be given as server/site")));
        }
        let server = s.substring_char(0, slash);
        let site = s.substring_char(slash + 1, n);
        let id = SiteID { server: String::from_str(server), site: String::from_str(site) };
        proof {
            assert(single_slash_at(s@, slash as int));
            assert(id.text() =~= s@);
        }
        Ok(id)
    }

    /// Whether both name the same site.
    pub fn same_site(&self, other: &SiteID) -> (r: bool)
        ensures
            r == (self.key() == other.key()),
    {
        self.server == other.server && self.site == other.site
    }

    /// A copy naming the same site.
    pub fn copied(&self) -> (r: SiteID)
        ensures
            r.key() == self.key(),
    {
        SiteID { server: self.server.clone(), site: self.site.clone() }
    }
}

/// The text of a site reads back as that site: `from_str` after `to_string`
/// gives the same server and site name, for names without `/`.
pub proof fn lemma_site_text_round_trip(server: Seq<char>, site: Seq<char>, other: SiteID)
    requires
        no_slash(server),
        no_slash(site),
        no_slash(other.server@),
        no_slash(other.site@),
        other.text() == site_text(server, site),
    ensures
        is_site_text(site_text(server, site)),
        other.key() == (server, site),
{
    let t = site_text(server, site);
    assert(t[server.len() as int] == '/');
    assert(single_slash_at(t, server.len() as int));
    let os = other.server@;
    if os.len() < server.len() {
        assert(t[os.len() as int] == '/');
        assert(server[os.len() as int] != '/');
    } else if os.len() > server.len() {
        assert(other.text()[server.len() as int] == os[server.len() as int]);
    }
    assert(os =~= t.subrange(0, server.len() as int));
    assert(os =~= server);
    assert(other.site@ =~= t.subrange(server.len() as int + 1, t.len() as int));
    assert(other.site@ =~= site);
}

} // verus!
