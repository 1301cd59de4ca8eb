//! What the program is told on its command line.
use crate::text;
use vstd::prelude::*;

verus! {

/// How the server is to run.
#[derive(Debug)]
pub struct Options {
    pub config: Option<String>,
    pub show_unused_keys: bool,
}

/// What an `Options` holds.
pub struct OptionsView {
    pub config: Option<Seq<char>>,
    pub show_unused_keys: bool,
}

impl DeepView for Options {
    type V = OptionsView;

    open spec fn deep_view(&self) -> OptionsView {
        OptionsView {
            config: self.config.deep_view(),
            show_unused_keys: self.show_unused_keys,
        }
    }
}

/// How the program is called.
pub open spec fn usage() -> Seq<char> {
    "usage: locale-breeze lsp --stdio [--config <path>] [--unused-keys <true|false>]"@
}

/// The options after the arguments from index `from` on.
pub open spec fn options_from(args: Seq<Seq<char>>, from: int, options: OptionsView) -> Result<
    OptionsView,
    Seq<char>,
>
    decreases
            if from < args.len() {
                args.len() - from
            } else {
                0
            },
{
    if from >= args.len() {
        Ok(options)
    } else if args[from] == "--config"@ {
        options_from(
            args,
            from + 2,
            OptionsView {
                config: if from + 1 < args.len() {
                    Some(args[from + 1])
                } else {
                    None
                },
                ..options
            },
        )
    } else if args[from] == "--unused-keys"@ {
        if from + 1 < args.len() && (args[from + 1] == "true"@ || args[from + 1] == "false"@) {
            options_from(
                args,
                from + 2,
                OptionsView { show_unused_keys: args[from + 1] == "true"@, ..options },
            )
        } else {
            Err("--unused-keys requires true or false"@)
        }
    } else {
        Err("unknown argument: "@ + args[from])
    }
}

/// The options that the arguments give.
pub open spec fn options_in(args: Seq<Seq<char>>) -> Result<OptionsView, Seq<char>> {
    let none = OptionsView { config: None, show_unused_keys: true };
    if args.len() >= 2 && args[0] == "lsp"@ && args[1] == "--stdio"@ {
        options_from(args, 2, none)
    } else if args.len() == 1 && args[0] == "--stdio"@ {
        Ok(none)
    } else {
        Err(usage())
    }
}

/// What came of reading the arguments.
pub open spec fn outcome(parsed: Result<Options, String>) -> Result<OptionsView, Seq<char>> {
    match parsed {
        Ok(options) => Ok(options.deep_view()),
        Err(message) => Err(message@),
    }
}

/// The options that the arguments give, or what is wrong with them.
pub fn parse_arguments(args: &[String]) -> (parsed: Result<Options, String>)
    ensures
        outcome(parsed) == options_in(args.deep_view()),
{
    let ghost all = args.deep_view();
    assert(all.len() == args@.len());
    assert(forall|i: int| 0 <= i < args@.len() ==> #[trigger] all[i] == args@[i]@);
    let mut options = Options { config: None, show_unused_keys: true };
    let count: usize = args.len();
    if count == 1 && text::same(args[0].as_str(), "--stdio") {
        return Ok(options);
    }
    if count < 2 || !text::same(args[0].as_str(), "lsp") || !text::same(
        args[1].as_str(),
        "--stdio",
    ) {
        return Err(
            "usage: locale-breeze lsp --stdio [--config <path>] [--unused-keys <true|false>]".to_owned(),
        );
    }
    let mut n: usize = 2;
    while n < count
        invariant
            n <= count,
            count == args@.len(),
            all == args.deep_view(),
            all.len() == count,
            options_in(all) == options_from(all, n as int, options.deep_view()),
        decreases count - n,
    {
        assert(all[n as int] == args@[n as int]@);
        let arg = args[n].as_str();
        if text::same(arg, "--config") {
            if n + 1 < count {
                assert(all[n + 1] == args@[n + 1]@);
                options.config = Some(args[n + 1].clone());
                n += 2;
            } else {
                options.config = None;
                assert(options_from(all, n + 2, options.deep_view()) == options_from(
                    all,
                    count as int,
                    options.deep_view(),
                ));
                n = count;
            }
        } else if text::same(arg, "--unused-keys") {
            if n + 1 >= count {
                return Err("--unused-keys requires true or false".to_owned());
            }
            assert(all[n + 1] == args@[n + 1]@);
            let choice = args[n + 1].as_str();
            proof {
                reveal_strlit("true");
                reveal_strlit("false");
                assert("true"@.len() != "false"@.len());
            }
            if text::same(choice, "true") {
                options.show_unused_keys = true;
            } else if text::same(choice, "false") {
                options.show_unused_keys = false;
            } else {
                return Err("--unused-keys requires true or false".to_owned());
            }
            n += 2;
        } else {
            let mut message = "unknown argument: ".to_owned();
            message.append(arg);
            return Err(message);
        }
    }
    Ok(options)
}

} // verus!
