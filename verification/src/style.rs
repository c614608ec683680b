use vstd::prelude::*;

use crate::config::Config;
use crate::text::string_of;

verus! {

/// The character of the decimal digit `d`.
pub open spec fn digit_spec(d: int) -> char {
    if d == 0 {
        '0'
    } else if d == 1 {
        '1'
    } else if d == 2 {
        '2'
    } else if d == 3 {
        '3'
    } else if d == 4 {
        '4'
    } else if d == 5 {
        '5'
    } else if d == 6 {
        '6'
    } else if d == 7 {
        '7'
    } else if d == 8 {
        '8'
    } else {
        '9'
    }
}

/// The decimal digits of `n`, without leading zeros.
pub open spec fn digits_spec(n: nat) -> Seq<char>
    decreases n,
{
    if n < 10 {
        seq![digit_spec(n as int)]
    } else {
        digits_spec(n / 10).push(digit_spec((n % 10) as int))
    }
}

/// How `Display` writes the integer `n`: a minus sign for a negative one, then its digits.
pub open spec fn decimal_spec(n: int) -> Seq<char> {
    if n < 0 {
        seq!['-'] + digits_spec((-n) as nat)
    } else {
        digits_spec(n as nat)
    }
}

fn digit(d: u64) -> (r: char)
    requires
        d < 10,
    ensures
        r == digit_spec(d as int),
{
    if d == 0 {
        '0'
    } else if d == 1 {
        '1'
    } else if d == 2 {
        '2'
    } else if d == 3 {
        '3'
    } else if d == 4 {
        '4'
    } else if d == 5 {
        '5'
    } else if d == 6 {
        '6'
    } else if d == 7 {
        '7'
    } else if d == 8 {
        '8'
    } else {
        '9'
    }
}

fn digits(n: u64) -> (r: Vec<char>)
    ensures
        r@ == digits_spec(n as nat),
    decreases n,
{
    if n < 10 {
        let mut v: Vec<char> = Vec::new();
        v.push(digit(n));
        assert(v@ =~= seq![digit_spec(n as int)]);
        v
    } else {
        let mut v = digits(n / 10);
        v.push(digit(n % 10));
        v
    }
}

/// The decimal form of `n`, as `Display` writes it.
pub fn decimal(n: i32) -> (r: String)
    ensures
        r@ == decimal_spec(n as int),
{
    if n < 0 {
        let magnitude: u64 = (-(n as i64)) as u64;
        let mut v: Vec<char> = Vec::new();
        v.push('-');
        let d = digits(magnitude);
        let mut k: usize = 0;
        while k < d.len()
            invariant
                k <= d@.len(),
                v@ == seq!['-'] + d@.take(k as int),
            decreases d@.len() - k,
        {
            v.push(d[k]);
            k = k + 1;
            assert(v@ =~= seq!['-'] + d@.take(k as int));
        }
        assert(d@.take(k as int) =~= d@);
        string_of(v.as_slice())
    } else {
        let d = digits(n as u64);
        string_of(d.as_slice())
    }
}

fn push_decimal(out: &mut String, n: i32)
    ensures
        final(out)@ == old(out)@ + decimal_spec(n as int),
{
    let d = decimal(n);
    out.append(d.as_str());
}

/// The style sheet of the launcher for the configuration `c`.
pub open spec fn stylesheet_spec(c: Config) -> Seq<char> {
    "\n        * {\n            font-family:\n                \""@
        + c.font@
        + "\",\n                \"Noto Sans\",\n                sans-serif;\n        }\n\n        window {\n            background: transparent;\n        }\n\n        .launcher {\n            background: "@
        + c.background@
        + ";\n\n            border:\n                "@
        + decimal_spec(c.border_width as int)
        + "px solid\n                "@
        + c.border_color@
        + ";\n\n            border-radius:\n                "@
        + decimal_spec(c.border_radius as int)
        + "px;\n\n            padding: 14px;\n        }\n\n        .search {\n            background:\n                "@
        + c.search_background@
        + ";\n\n            color:\n                "@
        + c.text_color@
        + ";\n\n            border:\n                1px solid\n                "@
        + c.search_border_color@
        + ";\n\n            border-radius:\n                12px;\n\n            padding:\n                13px 16px;\n\n            font-size:\n                "@
        + decimal_spec(c.search_font_size as int)
        + "px;\n\n            min-height:\n                28px;\n\n            caret-color:\n                #ffffff;\n        }\n\n        .search:focus {\n            border-color:\n                "@
        + c.search_focus_border_color@
        + ";\n\n            background:\n                rgba(\n                    255,\n                    255,\n                    255,\n                    0.09\n                );\n        }\n\n        .search placeholder {\n            color:\n                #777783;\n        }\n\n        list {\n            background:\n                transparent;\n        }\n\n        row {\n            background:\n                transparent;\n\n            border-radius:\n                "@
        + decimal_spec(c.row_radius as int)
        + "px;\n\n            padding:\n                4px;\n\n            margin:\n                "@
        + decimal_spec(c.row_margin as int)
        + "px 0;\n        }\n\n        row:hover {\n            background:\n                "@
        + c.hover_color@
        + ";\n        }\n\n        row:selected {\n            background:\n                "@
        + c.selected_color@
        + ";\n        }\n\n        .app-name {\n            color:\n                "@
        + c.text_color@
        + ";\n\n            font-size:\n                "@
        + decimal_spec(c.app_font_size as int)
        + "px;\n\n            font-weight:\n                600;\n        }\n\n        .app-comment {\n            color:\n                "@
        + c.comment_color@
        + ";\n\n            font-size:\n                "@
        + decimal_spec(c.comment_font_size as int)
        + "px;\n        }\n\n        .icon {\n            min-width:\n                "@
        + decimal_spec(c.icon_size as int)
        + "px;\n\n            min-height:\n                "@
        + decimal_spec(c.icon_size as int)
        + "px;\n        }\n\n        scrollbar {\n            background:\n                transparent;\n        }\n\n        scrollbar slider {\n            background:\n                rgba(\n                    255,\n                    255,\n                    255,\n                    0.15\n                );\n\n            border-radius:\n                8px;\n        }\n        "@
}

/// The style sheet of the launcher for `config`.
pub fn stylesheet(config: &Config) -> (r: String)
    ensures
        r@ == stylesheet_spec(*config),
{
    let mut out = String::new();
    out.append("\n        * {\n            font-family:\n                \"");
    out.append(config.font.as_str());
    out.append("\",\n                \"Noto Sans\",\n                sans-serif;\n        }\n\n        window {\n            background: transparent;\n        }\n\n        .launcher {\n            background: ");
    out.append(config.background.as_str());
    out.append(";\n\n            border:\n                ");
    push_decimal(&mut out, config.border_width);
    out.append("px solid\n                ");
    out.append(config.border_color.as_str());
    out.append(";\n\n            border-radius:\n                ");
    push_decimal(&mut out, config.border_radius);
    out.append("px;\n\n            padding: 14px;\n        }\n\n        .search {\n            background:\n                ");
    out.append(config.search_background.as_str());
    out.append(";\n\n            color:\n                ");
    out.append(config.text_color.as_str());
    out.append(";\n\n            border:\n                1px solid\n                ");
    out.append(config.search_border_color.as_str());
    out.append(";\n\n            border-radius:\n                12px;\n\n            padding:\n                13px 16px;\n\n            font-size:\n                ");
    push_decimal(&mut out, config.search_font_size);
    out.append("px;\n\n            min-height:\n                28px;\n\n            caret-color:\n                #ffffff;\n        }\n\n        .search:focus {\n            border-color:\n                ");
    out.append(config.search_focus_border_color.as_str());
    out.append(";\n\n            background:\n                rgba(\n                    255,\n                    255,\n                    255,\n                    0.09\n                );\n        }\n\n        .search placeholder {\n            color:\n                #777783;\n        }\n\n        list {\n            background:\n                transparent;\n        }\n\n        row {\n            background:\n                transparent;\n\n            border-radius:\n                ");
    push_decimal(&mut out, config.row_radius);
    out.append("px;\n\n            padding:\n                4px;\n\n            margin:\n                ");
    push_decimal(&mut out, config.row_margin);
    out.append("px 0;\n        }\n\n        row:hover {\n            background:\n                ");
    out.append(config.hover_color.as_str());
    out.append(";\n        }\n\n        row:selected {\n            background:\n                ");
    out.append(config.selected_color.as_str());
    out.append(";\n        }\n\n        .app-name {\n            color:\n                ");
    out.append(config.text_color.as_str());
    out.append(";\n\n            font-size:\n                ");
    push_decimal(&mut out, config.app_font_size);
    out.append("px;\n\n            font-weight:\n                600;\n        }\n\n        .app-comment {\n            color:\n                ");
    out.append(config.comment_color.as_str());
    out.append(";\n\n            font-size:\n                ");
    push_decimal(&mut out, config.comment_font_size);
    out.append("px;\n        }\n\n        .icon {\n            min-width:\n                ");
    push_decimal(&mut out, config.icon_size);
    out.append("px;\n\n            min-height:\n                ");
    push_decimal(&mut out, config.icon_size);
    out.append("px;\n        }\n\n        scrollbar {\n            background:\n                transparent;\n        }\n\n        scrollbar slider {\n            background:\n                rgba(\n                    255,\n                    255,\n                    255,\n                    0.15\n                );\n\n            border-radius:\n                8px;\n        }\n        ");
    assert(out@ =~= stylesheet_spec(*config));
    out
}

} // verus!
