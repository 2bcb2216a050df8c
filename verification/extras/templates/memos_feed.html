{% for group in memo_groups %}
<div class="mb-4">
<div class="flex items-center gap-2 mb-3">
<span class="text-xs font-medium text-muted-fg uppercase tracking-wider">{{ group.label }}</span>
<span class="text-xs text-muted-fg">{{ group.date }}</span>
<div class="flex-1 border-t border-border"></div>
<span class="text-xs text-muted-fg font-mono">{{ group.memos|length }}</span>
</div>
<div class="space-y-2">
{% for memo in group.memos %}
{% set id = memo.id %}
{% set content = memo.content %}
{% set content_html = memo.content_html %}
{% set visibility = memo.visibility %}
{% set created_at = memo.created_at %}
{% set created_at_relative = memo.created_at_relative %}
{% set resources = memo.resources %}
{% set tags = memo.tags %}
{% include "memo_fragment" %}
{% endfor %}
</div>
</div>
{% endfor %}
{% if next_offset %}
<div id="sentinel-memos-{{ offset }}" class="h-4"
hx-get="/memos-feed?offset={{ next_offset }}"
hx-trigger="revealed"
hx-swap="outerHTML"></div>
{% endif %}
{% if not memo_groups and offset == 0 %}
<div class="text-center py-16">
<p class="text-muted-fg text-sm">No notes found</p>
</div>
{% endif %}