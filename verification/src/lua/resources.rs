//! The scripts that every script state starts with.

use vstd::prelude::*;

verus! {

/// Reads and writes JSON.
pub const JSON_SCRIPT: &'static str = r#"
local json = {}

local escapes = {
    ['"'] = '\\"', ['\\'] = '\\\\', ['\b'] = '\\b', ['\f'] = '\\f',
    ['\n'] = '\\n', ['\r'] = '\\r', ['\t'] = '\\t',
}

local function encode_string(s)
    return '"' .. s:gsub('[%c"\\]', function (c)
        return escapes[c] or string.format('\\u%04x', c:byte())
    end) .. '"'
end

function json.encode(value)
    local kind = type(value)
    if kind == 'string' then
        return encode_string(value)
    elseif kind == 'table' then
        local parts = {}
        if #value > 0 or next(value) == nil then
            for _, item in ipairs(value) do
                parts[#parts + 1] = json.encode(item)
            end
            return '[' .. table.concat(parts, ',') .. ']'
        end
        for key, item in pairs(value) do
            parts[#parts + 1] = encode_string(tostring(key)) .. ':' .. json.encode(item)
        end
        return '{' .. table.concat(parts, ',') .. '}'
    elseif kind == 'nil' then
        return 'null'
    elseif kind == 'number' or kind == 'boolean' then
        return tostring(value)
    end
    error('cannot encode a ' .. kind)
end

local plain = {
    ['"'] = '"', ['\\'] = '\\', ['/'] = '/', b = '\b', f = '\f', n = '\n', r = '\r', t = '\t',
}

local decode_value

local function skip(s, i)
    return s:find('%S', i) or #s + 1
end

local function decode_string(s, i)
    local out = {}
    while true do
        local j = s:find('["\\]', i)
        if not j then
            error('unfinished string')
        end
        out[#out + 1] = s:sub(i, j - 1)
        if s:sub(j, j) == '"' then
            return table.concat(out), j + 1
        end
        local c = s:sub(j + 1, j + 1)
        if c == 'u' then
            out[#out + 1] = utf8.char(tonumber(s:sub(j + 2, j + 5), 16))
            i = j + 6
        else
            out[#out + 1] = plain[c] or error('bad escape')
            i = j + 2
        end
    end
end

local function decode_items(s, i, close, add)
    i = skip(s, i)
    if s:sub(i, i) == close then
        return i + 1
    end
    while true do
        i = skip(s, add(skip(s, i)))
        local c = s:sub(i, i)
        i = i + 1
        if c == close then
            return i
        elseif c ~= ',' then
            error('expected , or ' .. close)
        end
    end
end

function decode_value(s, i)
    local c = s:sub(i, i)
    if c == '"' then
        return decode_string(s, i + 1)
    elseif c == '[' then
        local list = {}
        local n = 0
        local last = decode_items(s, i + 1, ']', function (at)
            n = n + 1
            list[n], at = decode_value(s, at)
            return at
        end)
        return list, last
    elseif c == '{' then
        local object = {}
        local last = decode_items(s, i + 1, '}', function (at)
            local key
            key, at = decode_value(s, at)
            at = skip(s, at)
            if s:sub(at, at) ~= ':' then
                error('expected :')
            end
            object[key], at = decode_value(s, skip(s, at + 1))
            return at
        end)
        return object, last
    end
    local word = s:match('^[%w%.%+%-]+', i) or error('unexpected character')
    local last = i + #word
    if word == 'true' then
        return true, last
    elseif word == 'false' then
        return false, last
    elseif word == 'null' then
        return nil, last
    end
    return tonumber(word) or error('unexpected ' .. word), last
end

function json.decode(s)
    local value, i = decode_value(s, skip(s, 1))
    if skip(s, i) <= #s then
        error('text after the value')
    end
    return value
end

return json
"#;

/// What the keys do.
pub const BINDINGS_SCRIPT: &'static str = r#"
local keys = {
    ["ctrl-p"] = "previous_command",
    ["ctrl-n"] = "next_command",
    ["ctrl-b"] = "step_left",
    ["ctrl-f"] = "step_right",
    ["ctrl-a"] = "step_to_start",
    ["ctrl-e"] = "step_to_end",
    ["ctrl-l"] = "complete",
    ["ctrl-k"] = "delete_to_end",
    ["ctrl-u"] = "delete_from_start",
    ["page_up"] = "scroll_up",
    ["page_down"] = "scroll_down",
    ["end"] = "scroll_bottom",
}

for key, command in pairs(keys) do
    blight:bind(key, function ()
        blight:ui(command)
    end)
end
"#;

/// The colors.
pub const DEFAULTS_SCRIPT: &'static str = r#"
C_RESET = "\27[0m"
C_BOLD = "\27[1m"
C_RED = "\27[31m"
C_GREEN = "\27[32m"
C_YELLOW = "\27[33m"
C_BLUE = "\27[34m"
C_MAGENTA = "\27[35m"
C_CYAN = "\27[36m"
C_WHITE = "\27[37m"
"#;

/// The command that runs what the user types as a script.
pub const LUA_COMMAND_SCRIPT: &'static str = r#"
blight:add_alias("^/lua (.*)$", function (matches)
    local chunk, message = load(matches[2])
    if chunk then
        chunk()
    else
        error(message)
    end
end)
"#;

} // verus!
