//! Client-side routes of the site, as hash-based paths: the three static
//! pages, the map gallery, the per-seed map detail page, and the fallback.
use crate::names::{
    dec_digits, is_u32_numeral, lemma_dec_digits, str_eq, u32_decimal, u32_numeral_val,
};
use vstd::prelude::*;
use vstd::string::StrSliceExecFns;
use vstd::string::StringExecFns;

verus! {

broadcast use vstd::string::group_string_axioms;

/// Exactly one route is active at a time; the detail route carries the seed
/// it displays.
#[derive(Clone, Copy, PartialEq, Eq, Structural, Debug)]
pub enum Route {
    Home,
    Projects,
    About,
    VelorenMaps,
    VelorenMap { seed: u32 },
    NotFound,
}

/// The path each route is addressed by.
pub open spec fn path_of(r: Route) -> Seq<char> {
    match r {
        Route::Home => "/"@,
        Route::Projects => "/projects"@,
        Route::About => "/about"@,
        Route::VelorenMaps => "/maps"@,
        Route::VelorenMap { seed } => "/maps/"@ + dec_digits(seed as int),
        Route::NotFound => "/404"@,
    }
}

/// The route a path addresses; anything unrecognized falls back to the
/// not-found page.
pub open spec fn route_of(p: Seq<char>) -> Route {
    if p == "/"@ {
        Route::Home
    } else if p == "/projects"@ {
        Route::Projects
    } else if p == "/about"@ {
        Route::About
    } else if p == "/maps"@ {
        Route::VelorenMaps
    } else if p.len() > 6 && p.subrange(0, 6) == "/maps/"@ && is_u32_numeral(
        p.subrange(6, p.len() as int),
    ) {
        Route::VelorenMap { seed: u32_numeral_val(p.subrange(6, p.len() as int)) as u32 }
    } else {
        Route::NotFound
    }
}

impl Route {
    /// Formats the route as its path.
    pub fn to_path(&self) -> (r: String)
        ensures
            r@ == path_of(*self),
    {
        match self {
            Route::Home => String::from_str("/"),
            Route::Projects => String::from_str("/projects"),
            Route::About => String::from_str("/about"),
            Route::VelorenMaps => String::from_str("/maps"),
            Route::VelorenMap { seed } => {
                let mut r = String::from_str("/maps/");
                let digits = u32_decimal(*seed);
                r.append(digits.as_str());
                r
            },
            Route::NotFound => String::from_str("/404"),
        }
    }

    /// Parses a path into its route.
    pub fn from_path(p: &str) -> (r: Route)
        ensures
            r == route_of(p@),
    {
        if str_eq(p, "/") {
            return Route::Home;
        }
        if str_eq(p, "/projects") {
            return Route::Projects;
        }
        if str_eq(p, "/about") {
            return Route::About;
        }
        if str_eq(p, "/maps") {
            return Route::VelorenMaps;
        }
        let n = p.unicode_len();
        if n > 6 {
            let head = p.substring_char(0, 6);
            if str_eq(head, "/maps/") {
                let tail = p.substring_char(6, n);
                let ghost digits = p@.subrange(6, p@.len() as int);
                proof {
                    assert(tail@.subrange(0, tail@.len() as int) =~= digits);
                }
                match crate::names::parse_u32_str(tail) {
                    Some(seed) => {
                        return Route::VelorenMap { seed };
                    },
                    None => {
                        return Route::NotFound;
                    },
                }
            }
        }
        Route::NotFound
    }
}

/// Law: formatting any route as a path and parsing that path yields the same
/// route back.
pub proof fn lemma_path_round_trip(r: Route)
    ensures
        route_of(path_of(r)) == r,
{
    reveal_strlit("/");
    reveal_strlit("/projects");
    reveal_strlit("/about");
    reveal_strlit("/maps");
    reveal_strlit("/maps/");
    reveal_strlit("/404");
    assert("/"@.len() == 1 && "/projects"@.len() == 9 && "/about"@.len() == 6 && "/maps"@.len()
        == 5 && "/maps/"@.len() == 6 && "/404"@.len() == 4);
    match r {
        Route::Home => {
        },
        Route::Projects => {
            assert("/projects"@ != "/"@);
        },
        Route::About => {
            assert("/about"@ != "/"@ && "/about"@ != "/projects"@);
        },
        Route::VelorenMaps => {
            assert("/maps"@ != "/"@ && "/maps"@ != "/projects"@ && "/maps"@ != "/about"@);
        },
        Route::VelorenMap { seed } => {
            lemma_dec_digits(seed as int);
            let p = "/maps/"@ + dec_digits(seed as int);
            assert(p.len() >= 7);
            assert(p[1] == 'm');
            assert(p != "/"@);
            assert(p != "/projects"@) by {
                assert("/projects"@[1] == 'p');
            }
            assert(p != "/about"@);
            assert(p != "/maps"@);
            assert(p.subrange(0, 6) =~= "/maps/"@);
            assert(p.subrange(6, p.len() as int) =~= dec_digits(seed as int));
        },
        Route::NotFound => {
            assert("/404"@ != "/"@ && "/404"@ != "/projects"@ && "/404"@ != "/about"@ && "/404"@
                != "/maps"@);
            assert("/404"@.len() == 4);
        },
    }
}

} // verus!
