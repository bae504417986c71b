use vstd::prelude::*;

verus! {

#[verifier::external_type_specification]
#[verifier::external_body]
pub struct ExRegex(regex::Regex);

#[verifier::external_type_specification]
#[verifier::external_body]
pub struct ExRegexError(regex::Error);

/// Whether `regex::Regex::new` accepts a pattern.
pub uninterp spec fn regex_accepts(pattern: Seq<char>) -> bool;

/// The name of each capture group of a pattern, in group order, as
/// `regex::Regex::capture_names` yields them.
pub uninterp spec fn regex_group_names(pattern: Seq<char>) -> Seq<Option<Seq<char>>>;

/// The text of each capture group of the first match of a pattern in a text,
/// as `regex::Regex::captures` finds them; `None` where nothing matches.
pub uninterp spec fn regex_captures(pattern: Seq<char>, text: Seq<char>) -> Option<
    Seq<Option<Seq<char>>>,
>;

/// The texts held by a sequence of optional strings.
pub open spec fn texts_of(v: Seq<Option<String>>) -> Seq<Option<Seq<char>>> {
    v.map_values(|o: Option<String>| match o {
        Some(s) => Some(s@),
        None => None,
    })
}

/// The index of the first group named `name`, from `from` on.
pub open spec fn group_named_from(names: Seq<Option<Seq<char>>>, name: Seq<char>, from: int) -> Option<
    int,
>
    decreases names.len() - from,
{
    if from < 0 || from >= names.len() {
        None
    } else if names[from] == Some(name) {
        Some(from)
    } else {
        group_named_from(names, name, from + 1)
    }
}

/// Relies on `regex::Regex::new`: it compiles `source`, or returns an error
/// where it rejects the pattern.
#[verifier::external_body]
fn compile_regex(source: &str) -> (r: Result<regex::Regex, regex::Error>)
    ensures
        r is Ok <==> regex_accepts(source@),
{
    regex::Regex::new(source)
}

/// The error of a pattern that the regex engine rejects; it holds the
/// pattern.
pub struct InvalidPattern {
    pub pattern: String,
}

/// A compiled regular expression together with its source text and the names
/// of its capture groups.
pub struct RegexPattern {
    pattern: regex::Regex,
    source: String,
    names: Vec<Option<String>>,
}

/// Copies a sequence of optional strings.
fn copy_texts(v: &Vec<Option<String>>) -> (r: Vec<Option<String>>)
    ensures
        texts_of(r@) == texts_of(v@),
{
    let mut r: Vec<Option<String>> = Vec::new();
    let mut i: usize = 0;
    while i < v.len()
        invariant
            i <= v@.len(),
            r@.len() == i,
            texts_of(r@) == texts_of(v@.subrange(0, i as int)),
        decreases v@.len() - i,
    {
        let item = match &v[i] {
            Some(s) => Some(s.clone()),
            None => None,
        };
        let ghost before = r@;
        r.push(item);
        assert(v@.subrange(0, i + 1) =~= v@.subrange(0, i as int).push(v@[i as int]));
        assert(r@ == before.push(item));
        assert(texts_of(r@).len() == texts_of(v@.subrange(0, i + 1)).len());
        assert forall|k: int| 0 <= k < texts_of(r@).len() implies texts_of(r@)[k] == texts_of(
            v@.subrange(0, i + 1),
        )[k] by {
            if k < i {
                assert(texts_of(before)[k] == texts_of(v@.subrange(0, i as int))[k]);
            }
        }
        assert(texts_of(r@) =~= texts_of(v@.subrange(0, i + 1)));
        i = i + 1;
    }
    assert(v@.subrange(0, v@.len() as int) =~= v@);
    r
}

impl RegexPattern {
    /// The source text the pattern was compiled from.
    pub closed spec fn source(&self) -> Seq<char> {
        self.source@
    }

    /// The names of the capture groups, in group order.
    pub closed spec fn names(&self) -> Seq<Option<Seq<char>>> {
        texts_of(self.names@)
    }

    /// A pattern is well formed when its group names are those of its source.
    pub open spec fn wf(&self) -> bool {
        self.names() == regex_group_names(self.source())
    }

    /// Compiles `source`; fails where the regex engine rejects it.
    pub fn compile(source: &str) -> (r: Result<RegexPattern, InvalidPattern>)
        ensures
            r is Ok <==> regex_accepts(source@),
            r matches Ok(p) ==> p.source() == source@ && p.wf(),
            r matches Err(e) ==> e.pattern@ == source@,
    {
        match compile_regex(source) {
            Ok(re) => {
                let mut p = RegexPattern { pattern: re, source: source.to_owned(), names: Vec::new() };
                p.names = p.group_names();
                Ok(p)
            },
            Err(_) => Err(InvalidPattern { pattern: source.to_owned() }),
        }
    }

    /// Relies on `regex::Regex::capture_names`: the name of each capture group
    /// of the pattern, which is compiled from `source` (both fields are private
    /// and set together in `compile`).
    #[verifier::external_body]
    fn group_names(&self) -> (r: Vec<Option<String>>)
        ensures
            texts_of(r@) == regex_group_names(self.source@),
    {
        self.pattern.capture_names().map(|n| n.map(|s| s.to_string())).collect()
    }

    /// Relies on `regex::Regex::captures`: the text of each group of the first
    /// match in `text` of the pattern, which is compiled from `source`.
    #[verifier::external_body]
    fn find_captures(&self, text: &str) -> (r: Option<Vec<Option<String>>>)
        ensures
            match r {
                Some(g) => regex_captures(self.source@, text@) == Some(texts_of(g@)),
                None => regex_captures(self.source@, text@) is None,
            },
    {
        self.pattern.captures(text).map(|c| c.iter().map(|m| m.map(|m| m.as_str().to_string())).collect())
    }

    /// The captures of the first match of the pattern in `text`, or `None`
    /// where the pattern does not match.
    pub fn owned_captures(&self, text: &str) -> (r: Option<OwnedCaptures>)
        ensures
            match r {
                Some(c) => {
                    &&& regex_captures(self.source(), text@) == Some(c.groups())
                    &&& self.wf() ==> c.names() == regex_group_names(self.source())
                },
                None => regex_captures(self.source(), text@) is None,
            },
    {
        match self.find_captures(text) {
            Some(groups) => Some(OwnedCaptures { groups, names: copy_texts(&self.names) }),
            None => None,
        }
    }
}

/// The groups captured by one match, each retrievable by position and, where
/// the group is named, by name.
pub struct OwnedCaptures {
    groups: Vec<Option<String>>,
    names: Vec<Option<String>>,
}

impl OwnedCaptures {
    /// The text of each group, `None` for a group that took no part in the
    /// match; group 0 is the whole match.
    pub closed spec fn groups(&self) -> Seq<Option<Seq<char>>> {
        texts_of(self.groups@)
    }

    /// The name of each group, in group order.
    pub closed spec fn names(&self) -> Seq<Option<Seq<char>>> {
        texts_of(self.names@)
    }

    /// What `get(i)` returns: the text of group `i`, if it exists and matched.
    pub open spec fn group_spec(&self, i: int) -> Option<Seq<char>> {
        if 0 <= i < self.groups().len() {
            self.groups()[i]
        } else {
            None
        }
    }

    /// The text of group `i`; `None` where there is no such group or it did
    /// not take part in the match.
    pub fn get(&self, i: usize) -> (r: Option<&str>)
        ensures
            match r {
                Some(s) => self.group_spec(i as int) == Some(s@),
                None => self.group_spec(i as int) is None,
            },
    {
        if i < self.groups.len() {
            match &self.groups[i] {
                Some(s) => Some(s.as_str()),
                None => None,
            }
        } else {
            None
        }
    }

    /// The text of the first group named `name`; `None` where no group has
    /// that name or that group did not take part in the match.
    pub fn name(&self, name: &str) -> (r: Option<&str>)
        ensures
            match group_named_from(self.names(), name@, 0) {
                Some(i) => match r {
                    Some(s) => self.group_spec(i) == Some(s@),
                    None => self.group_spec(i) is None,
                },
                None => r is None,
            },
    {
        let wanted = name.to_owned();
        let mut i: usize = 0;
        while i < self.names.len()
            invariant
                i <= self.names@.len(),
                wanted@ == name@,
                group_named_from(self.names(), name@, 0) == group_named_from(self.names(), name@, i as int),
            decreases self.names@.len() - i,
        {
            let hit = match &self.names[i] {
                Some(n) => n.eq(&wanted),
                None => false,
            };
            if hit {
                return self.get(i);
            }
            i = i + 1;
        }
        None
    }
}

} // verus!
