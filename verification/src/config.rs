//! The host configuration the pipeline reads: the language allow-list and
//! the optional per-language hide prefix. The host hands both over as
//! plain values drawn from its configuration tree.

use vstd::prelude::*;
use crate::MdbookTreesitter;
use crate::errors::{Error, ErrorView};

verus! {

/// The raw allow-list value as found in the host configuration: absent,
/// of the wrong shape, or a list whose entries may each fail to be a
/// string (`None` stands for a non-string entry).
pub enum LanguagesSetting {
    Missing,
    NotAList,
    List(Vec<Option<String>>),
}

/// Every entry of the raw list is a string.
pub open spec fn all_strings(items: Seq<Option<String>>) -> bool {
    forall|i: int| 0 <= i < items.len() ==> (#[trigger] items[i]) is Some
}

/// The strings of a raw list whose entries are all strings.
pub open spec fn strings_of(items: Seq<Option<String>>) -> Seq<Seq<char>> {
    items.map_values(|o: Option<String>| (o->0)@)
}

/// The character sequences of a sequence of strings.
pub open spec fn views_of(v: Seq<String>) -> Seq<Seq<char>> {
    v.map_values(|s: String| s@)
}

/// The first hide prefix recorded for a language, if any.
pub open spec fn hide_lookup(pairs: Seq<(String, String)>, lang: Seq<char>) -> Option<Seq<char>>
    decreases pairs.len(),
{
    if pairs.len() == 0 {
        None
    } else if pairs[0].0@ == lang {
        Some(pairs[0].1@)
    } else {
        hide_lookup(pairs.drop_first(), lang)
    }
}

impl MdbookTreesitter {
    /// Reads the language allow-list out of the host configuration value:
    /// an absent value is `ConfigMissing`; anything but a list of strings
    /// is `ConfigMalformed`.
    pub fn get_ts_languages(setting: LanguagesSetting) -> (r: Result<Vec<String>, Error>)
        ensures
            setting is Missing ==> (r matches Err(e) && e@ == ErrorView::ConfigMissing),
            setting is NotAList ==> (r matches Err(e) && e@ == ErrorView::ConfigMalformed),
            setting matches LanguagesSetting::List(items) ==> {
                if all_strings(items@) {
                    r matches Ok(v) && v.deep_view() == strings_of(items@)
                } else {
                    (r matches Err(e) && e@ == ErrorView::ConfigMalformed)
                }
            },
    {
        match setting {
            LanguagesSetting::Missing => Err(Error::ConfigMissing),
            LanguagesSetting::NotAList => Err(Error::ConfigMalformed),
            LanguagesSetting::List(items) => {
                let mut out: Vec<String> = Vec::new();
                let mut i: usize = 0;
                while i < items.len()
                    invariant
                        setting matches LanguagesSetting::List(items2) && items2@ == items@,
                        0 <= i <= items@.len(),
                        out@.len() == i,
                        forall|k: int| 0 <= k < i ==> (#[trigger] items@[k]) is Some,
                        views_of(out@) =~= strings_of(items@.subrange(0, i as int)),
                    decreases items@.len() - i,
                {
                    match &items[i] {
                        Some(s) => {
                            proof {
                                assert(items@[i as int] == Some(*s));
                            }
                            let ghost prev = out@;
                            out.push(s.clone());
                            proof {
                                assert(out@ =~= prev.push(*s));
                                let sub1 = items@.subrange(0, i + 1);
                                assert(views_of(out@).len() == i + 1);
                                assert(strings_of(sub1).len() == i + 1);
                                assert forall|k: int| 0 <= k < i + 1 implies views_of(out@)[k]
                                    == strings_of(sub1)[k] by {
                                    assert(strings_of(sub1)[k] == (sub1[k]->0)@);
                                    assert(sub1[k] == items@[k]);
                                    if k < i {
                                        assert(out@[k] == prev[k]);
                                        assert(views_of(prev)[k] == strings_of(
                                            items@.subrange(0, i as int),
                                        )[k]);
                                        assert(items@.subrange(0, i as int)[k] == items@[k]);
                                    } else {
                                        assert(out@[k] == *s);
                                    }
                                }
                                assert(views_of(out@) =~~= strings_of(
                                    items@.subrange(0, i + 1),
                                ));
                            }
                        },
                        None => {
                            proof {
                                assert(items@[i as int] is None);
                                assert(!all_strings(items@));
                            }
                            return Err(Error::ConfigMalformed);
                        },
                    }
                    i += 1;
                }
                proof {
                    assert(items@.subrange(0, i as int) =~= items@);
                    assert(out.deep_view() =~~= views_of(out@));
                }
                Ok(out)
            },
        }
    }

    /// Looks the language up in the host's hide-prefix table; absence
    /// means no line is hidden.
    pub fn get_hide_line_prefix(hidelines: &Vec<(String, String)>, language: &str) -> (r: Option<
        String,
    >)
        ensures
            r matches Some(p) ==> hide_lookup(hidelines@, language@) == Some(p@),
            r is None ==> hide_lookup(hidelines@, language@) is None,
    {
        let mut i: usize = 0;
        proof {
            assert(hidelines@.skip(0) =~= hidelines@);
        }
        while i < hidelines.len()
            invariant
                0 <= i <= hidelines@.len(),
                hide_lookup(hidelines@, language@) == hide_lookup(
                    hidelines@.skip(i as int),
                    language@,
                ),
            decreases hidelines@.len() - i,
        {
            proof {
                assert(hidelines@.skip(i as int)[0] == hidelines@[i as int]);
                assert(hidelines@.skip(i as int).drop_first() =~= hidelines@.skip(i + 1));
            }
            if crate::text::str_eq(hidelines[i].0.as_str(), language) {
                return Some(hidelines[i].1.clone());
            }
            i += 1;
        }
        proof {
            assert(hidelines@.skip(i as int) =~= Seq::<(String, String)>::empty());
        }
        None
    }
}

} // verus!
